//! The text-mode status dashboard, as the list of drawing steps that paint it
//! on the 80x25 screen.
use vstd::prelude::*;
use crate::util::{push_dec, dec_of};

verus! {

/// Screen width in characters.
pub const W: usize = 80;

/// The sixteen text-mode colours.
#[derive(Clone, Copy, PartialEq, Eq, Structural, Debug)]
pub enum Color {
    Black,
    Blue,
    Green,
    Cyan,
    Red,
    Magenta,
    Brown,
    LightGray,
    DarkGray,
    LightBlue,
    LightGreen,
    LightCyan,
    LightRed,
    Pink,
    Yellow,
    White,
}

/// One drawing step.
#[derive(Debug)]
pub enum DrawOp {
    /// Fill a whole row with one character code.
    FillRow { row: usize, ch: u8, fg: Color, bg: Color },
    /// Write text from a position on.
    WriteAt { row: usize, col: usize, text: String, fg: Color, bg: Color },
}

/// A drawing step as plain values; a fill has no text.
pub type OpView = (bool, usize, usize, u8, Seq<char>, Color, Color);

/// The plain values of a step: whether it is a write, row, column, fill
/// character, text, colours.
pub open spec fn op_view(o: DrawOp) -> OpView {
    match o {
        DrawOp::FillRow { row, ch, fg, bg } => (false, row, 0, ch, Seq::empty(), fg, bg),
        DrawOp::WriteAt { row, col, text, fg, bg } => (true, row, col, 0, text@, fg, bg),
    }
}

/// A fill step.
pub open spec fn fill(row: usize, ch: u8, fg: Color, bg: Color) -> OpView {
    (false, row, 0, ch, Seq::empty(), fg, bg)
}

/// A write step.
pub open spec fn write(row: usize, col: usize, text: Seq<char>, fg: Color, bg: Color) -> OpView {
    (true, row, col, 0, text, fg, bg)
}

/// The subsystem rows: name and description.
pub open spec fn subsystems() -> Seq<(Seq<char>, Seq<char>)> {
    seq![
        ("ARCH"@, "GDT + IDT + PIC"@),
        ("MEMORY"@, "Heap 8MB / Paging"@),
        ("DRIVERS"@, "VGA + Serial + PS/2"@),
        ("MODULES"@, "Scheduler + TmpFS + ELF"@),
        ("SECURITY"@, "Sandbox + Policy"@),
        ("NET"@, "virtio-net TCP/IP/DNS"@),
        ("P2P"@, "3 peers / Gossip+Crypto"@),
        ("IA"@, "3 modelos ML ativos"@),
        ("UI"@, "1024x768 Framebuffer"@),
        ("EDGE"@, "4 nos / BestFit"@),
        ("WASM"@, "Runtime 1.0+SIMD"@),
    ]
}

/// The metric rows: label and value.
pub open spec fn metrics() -> Seq<(Seq<char>, Seq<char>)> {
    seq![
        ("Heap"@, "8192 KB"@),
        ("Procs"@, "2 ativos"@),
        ("P2P Node"@, "16df6e1b"@),
        ("Peers"@, "3 / 3 up"@),
        ("IA Infer"@, "0"@),
        ("Frames"@, "0"@),
        ("Edge"@, "4 nos"@),
        ("WASM"@, "0 inst"@),
        ("XR"@, "90 Hz"@),
        ("Quantum"@, "20 qbits"@),
        ("Syscalls"@, "0"@),
    ]
}

/// The boot log lines.
pub open spec fn boot_log() -> Seq<Seq<char>> {
    seq![
        "[OK] GDT inicializada"@,
        "[OK] IDT + PIC configurados"@,
        "[OK] Heap 8MB mapeado"@,
        "[OK] P2P node 16df6e1b ativo"@,
        "[OK] IA 3 modelos carregados"@,
        "[OK] UI framebuffer 1024x768"@,
        "[OK] Edge 4 nos registados"@,
        "[OK] Kernel v0.1.0 pronto"@,
    ]
}

/// The steps of subsystem row `i`: an [OK] badge, the name in yellow, and the
/// description from column 19 on (or just after a longer name).
pub open spec fn subsystem_ops(i: int) -> Seq<OpView> {
    let (name, desc) = subsystems()[i];
    let pad: int = if 13 >= name.len() { 13 - name.len() } else { 0 };
    seq![
        write((2 + i) as usize, 1, "[OK]"@, Color::LightGreen, Color::Blue),
        write((2 + i) as usize, 6, name, Color::Yellow, Color::Blue),
        write((2 + i) as usize, (6 + name.len() + pad) as usize, desc, Color::LightGray, Color::Blue),
    ]
}

/// The steps of metric row `i`: a bar, the label, a colon and the value.
pub open spec fn metric_ops(i: int) -> Seq<OpView> {
    let (label, value) = metrics()[i];
    seq![
        write((2 + i) as usize, 44, "|"@, Color::Yellow, Color::Blue),
        write((2 + i) as usize, 46, label, Color::Cyan, Color::Blue),
        write((2 + i) as usize, (46 + label.len() + 1) as usize, ":"@, Color::DarkGray, Color::Blue),
        write((2 + i) as usize, (46 + label.len() + 3) as usize, value, Color::White, Color::Blue),
    ]
}

/// The plain values of a list of steps.
pub open spec fn views(s: Seq<DrawOp>) -> Seq<OpView> {
    s.map_values(|o: DrawOp| op_view(o))
}

/// Clearing row `r` to the background.
pub open spec fn clear_f() -> spec_fn(int) -> Seq<OpView> {
    |r: int| seq![fill(r as usize, 0x20, Color::LightGray, Color::Blue)]
}

/// The steps of every subsystem row.
pub open spec fn subsystem_f() -> spec_fn(int) -> Seq<OpView> {
    |i: int| subsystem_ops(i)
}

/// The steps of every metric row.
pub open spec fn metric_f() -> spec_fn(int) -> Seq<OpView> {
    |i: int| metric_ops(i)
}

/// Writing boot log line `i`.
pub open spec fn log_f() -> spec_fn(int) -> Seq<OpView> {
    |i: int| seq![write((15 + i) as usize, 2, boot_log()[i], Color::LightGreen, Color::Blue)]
}

/// The header: title bar and the line under it.
pub open spec fn header_ops() -> Seq<OpView> {
    seq![
        fill(0, 0x20, Color::Black, Color::Cyan),
        write(0, 0, "  SOC-D Kernel v0.1.0  |  Sistema Operacional Cognitivo Distribuido  "@, Color::Black, Color::Cyan),
        write(0, 72, "x86_64  "@, Color::Black, Color::Cyan),
        fill(1, 0xCD, Color::Yellow, Color::Blue),
    ]
}

/// The middle separator and the titles of the log section.
pub open spec fn middle_ops() -> Seq<OpView> {
    seq![
        fill(13, 0xC4, Color::Yellow, Color::Blue),
        write(13, 0, "+"@, Color::Yellow, Color::Blue),
        write(13, 44, "+"@, Color::Yellow, Color::Blue),
        write(13, 79, "+"@, Color::Yellow, Color::Blue),
        write(14, 1, "Boot log:"@, Color::Cyan, Color::Blue),
        write(14, 45, "Shell: -serial stdio"@, Color::DarkGray, Color::Blue),
    ]
}

/// The bottom separator and the fixed status bar.
pub open spec fn footer_ops() -> Seq<OpView> {
    seq![
        fill(23, 0xCD, Color::Yellow, Color::Blue),
        fill(24, 0x20, Color::Black, Color::Cyan),
        write(24, 1, "SOC-D v0.1.0  |  Rust nightly  |  x86_64-unknown-none  |  -serial stdio para shell"@, Color::Black, Color::Cyan),
    ]
}

/// Concatenates the steps made by `f` for 0 up to `n`.
pub open spec fn steps(n: nat, f: spec_fn(int) -> Seq<OpView>) -> Seq<OpView>
    decreases n,
{
    if n == 0 { Seq::empty() } else { steps((n - 1) as nat, f) + f(n - 1) }
}

/// Every step of the dashboard, in order.
pub open spec fn dashboard_spec() -> Seq<OpView> {
    steps(25, clear_f()) + header_ops() + steps(11, subsystem_f()) + steps(11, metric_f())
        + middle_ops() + steps(8, log_f()) + footer_ops()
}

/// The steps that refresh the status bar at `tick` (sixty ticks a second).
pub open spec fn statusbar_spec(tick: u64) -> Seq<OpView> {
    seq![
        fill(24, 0x20, Color::Black, Color::Cyan),
        write(24, 0, " SOC-D v0.1.0  |  uptime: "@ + dec_of((tick / 60) as nat)
            + "s  |  Heap: 8MB  |  'socd>' na serial"@, Color::Black, Color::Cyan),
    ]
}

fn subsystem_entry(i: usize) -> (r: (&'static str, &'static str))
    requires
        i < 11,
    ensures
        r.0@ == subsystems()[i as int].0,
        r.1@ == subsystems()[i as int].1,
        r.0@.len() <= 8,
{
    proof {
        reveal_strlit("ARCH");
        reveal_strlit("MEMORY");
        reveal_strlit("DRIVERS");
        reveal_strlit("MODULES");
        reveal_strlit("SECURITY");
        reveal_strlit("NET");
        reveal_strlit("P2P");
        reveal_strlit("IA");
        reveal_strlit("UI");
        reveal_strlit("EDGE");
        reveal_strlit("WASM");
    }
    if i == 0 { ("ARCH", "GDT + IDT + PIC") }
    else if i == 1 { ("MEMORY", "Heap 8MB / Paging") }
    else if i == 2 { ("DRIVERS", "VGA + Serial + PS/2") }
    else if i == 3 { ("MODULES", "Scheduler + TmpFS + ELF") }
    else if i == 4 { ("SECURITY", "Sandbox + Policy") }
    else if i == 5 { ("NET", "virtio-net TCP/IP/DNS") }
    else if i == 6 { ("P2P", "3 peers / Gossip+Crypto") }
    else if i == 7 { ("IA", "3 modelos ML ativos") }
    else if i == 8 { ("UI", "1024x768 Framebuffer") }
    else if i == 9 { ("EDGE", "4 nos / BestFit") }
    else { ("WASM", "Runtime 1.0+SIMD") }
}

fn metric_entry(i: usize) -> (r: (&'static str, &'static str))
    requires
        i < 11,
    ensures
        r.0@ == metrics()[i as int].0,
        r.1@ == metrics()[i as int].1,
        r.0@.len() <= 8,
{
    proof {
        reveal_strlit("Heap");
        reveal_strlit("Procs");
        reveal_strlit("P2P Node");
        reveal_strlit("Peers");
        reveal_strlit("IA Infer");
        reveal_strlit("Frames");
        reveal_strlit("Edge");
        reveal_strlit("WASM");
        reveal_strlit("XR");
        reveal_strlit("Quantum");
        reveal_strlit("Syscalls");
    }
    if i == 0 { ("Heap", "8192 KB") }
    else if i == 1 { ("Procs", "2 ativos") }
    else if i == 2 { ("P2P Node", "16df6e1b") }
    else if i == 3 { ("Peers", "3 / 3 up") }
    else if i == 4 { ("IA Infer", "0") }
    else if i == 5 { ("Frames", "0") }
    else if i == 6 { ("Edge", "4 nos") }
    else if i == 7 { ("WASM", "0 inst") }
    else if i == 8 { ("XR", "90 Hz") }
    else if i == 9 { ("Quantum", "20 qbits") }
    else { ("Syscalls", "0") }
}

fn log_entry(i: usize) -> (r: &'static str)
    requires
        i < 8,
    ensures
        r@ == boot_log()[i as int],
{
    if i == 0 { "[OK] GDT inicializada" }
    else if i == 1 { "[OK] IDT + PIC configurados" }
    else if i == 2 { "[OK] Heap 8MB mapeado" }
    else if i == 3 { "[OK] P2P node 16df6e1b ativo" }
    else if i == 4 { "[OK] IA 3 modelos carregados" }
    else if i == 5 { "[OK] UI framebuffer 1024x768" }
    else if i == 6 { "[OK] Edge 4 nos registados" }
    else { "[OK] Kernel v0.1.0 pronto" }
}

fn push_op(ops: &mut Vec<DrawOp>, o: DrawOp)
    ensures
        views(final(ops)@) == views(old(ops)@).push(op_view(o)),
{
    let ghost v = op_view(o);
    ops.push(o);
    assert(views(ops@) =~= views(old(ops)@).push(v));
}

fn fill_op(ops: &mut Vec<DrawOp>, row: usize, ch: u8, fg: Color, bg: Color)
    ensures
        views(final(ops)@) == views(old(ops)@).push(fill(row, ch, fg, bg)),
{
    push_op(ops, DrawOp::FillRow { row, ch, fg, bg });
}

fn write_op(ops: &mut Vec<DrawOp>, row: usize, col: usize, text: &str, fg: Color, bg: Color)
    ensures
        views(final(ops)@) == views(old(ops)@).push(write(row, col, text@, fg, bg)),
{
    push_op(ops, DrawOp::WriteAt { row, col, text: String::from_str(text), fg, bg });
}

/// The steps that paint the whole dashboard: clear the screen, the header,
/// the subsystem and metric columns, the log section and the status bar.
pub fn draw() -> (ops: Vec<DrawOp>)
    ensures
        views(ops@) == dashboard_spec(),
{
    let mut ops: Vec<DrawOp> = Vec::new();
    assert(views(ops@) =~= steps(0, clear_f()));
    let mut row: usize = 0;
    while row < 25
        invariant
            row <= 25,
            views(ops@) == steps(row as nat, clear_f()),
        decreases 25 - row,
    {
        fill_op(&mut ops, row, 0x20, Color::LightGray, Color::Blue);
        row = row + 1;
    }
    let ghost a = views(ops@);
    fill_op(&mut ops, 0, 0x20, Color::Black, Color::Cyan);
    write_op(&mut ops, 0, 0, "  SOC-D Kernel v0.1.0  |  Sistema Operacional Cognitivo Distribuido  ", Color::Black, Color::Cyan);
    let right = "x86_64  ";
    proof { reveal_strlit("x86_64  "); }
    write_op(&mut ops, 0, W - right.unicode_len(), right, Color::Black, Color::Cyan);
    fill_op(&mut ops, 1, 0xCD, Color::Yellow, Color::Blue);
    assert(views(ops@) =~= a + header_ops());
    let ghost b = views(ops@);
    assert(b =~= b + steps(0, subsystem_f()));
    let mut i: usize = 0;
    while i < 11
        invariant
            i <= 11,
            views(ops@) == b + steps(i as nat, subsystem_f()),
        decreases 11 - i,
    {
        let ghost before = views(ops@);
        let (name, desc) = subsystem_entry(i);
        let row = 2 + i;
        write_op(&mut ops, row, 1, "[OK]", Color::LightGreen, Color::Blue);
        write_op(&mut ops, row, 6, name, Color::Yellow, Color::Blue);
        let nl = name.unicode_len();
        let pad: usize = if 13 >= nl { 13 - nl } else { 0 };
        write_op(&mut ops, row, 6 + nl + pad, desc, Color::LightGray, Color::Blue);
        assert(views(ops@) =~= before + subsystem_ops(i as int));
        assert((subsystem_f())(i as int) == subsystem_ops(i as int));
        assert(b + steps((i + 1) as nat, subsystem_f()) =~= b + steps(i as nat, subsystem_f()) + subsystem_ops(i as int));
        i = i + 1;
    }
    let ghost c = views(ops@);
    assert(c =~= c + steps(0, metric_f()));
    let mut i: usize = 0;
    while i < 11
        invariant
            i <= 11,
            views(ops@) == c + steps(i as nat, metric_f()),
        decreases 11 - i,
    {
        let ghost before = views(ops@);
        let (label, value) = metric_entry(i);
        let row = 2 + i;
        let ll = label.unicode_len();
        write_op(&mut ops, row, 44, "|", Color::Yellow, Color::Blue);
        write_op(&mut ops, row, 46, label, Color::Cyan, Color::Blue);
        write_op(&mut ops, row, 46 + ll + 1, ":", Color::DarkGray, Color::Blue);
        write_op(&mut ops, row, 46 + ll + 3, value, Color::White, Color::Blue);
        assert(views(ops@) =~= before + metric_ops(i as int));
        assert((metric_f())(i as int) == metric_ops(i as int));
        assert(c + steps((i + 1) as nat, metric_f()) =~= c + steps(i as nat, metric_f()) + metric_ops(i as int));
        i = i + 1;
    }
    let ghost d = views(ops@);
    fill_op(&mut ops, 13, 0xC4, Color::Yellow, Color::Blue);
    write_op(&mut ops, 13, 0, "+", Color::Yellow, Color::Blue);
    write_op(&mut ops, 13, 44, "+", Color::Yellow, Color::Blue);
    write_op(&mut ops, 13, 79, "+", Color::Yellow, Color::Blue);
    write_op(&mut ops, 14, 1, "Boot log:", Color::Cyan, Color::Blue);
    write_op(&mut ops, 14, 45, "Shell: -serial stdio", Color::DarkGray, Color::Blue);
    assert(views(ops@) =~= d + middle_ops());
    let ghost e = views(ops@);
    assert(e =~= e + steps(0, log_f()));
    let mut i: usize = 0;
    while i < 8
        invariant
            i <= 8,
            views(ops@) == e + steps(i as nat, log_f()),
        decreases 8 - i,
    {
        let line = log_entry(i);
        write_op(&mut ops, 15 + i, 2, line, Color::LightGreen, Color::Blue);
        assert(e + steps((i + 1) as nat, log_f()) =~= e + steps(i as nat, log_f())
            + seq![write((15 + i) as usize, 2, boot_log()[i as int], Color::LightGreen, Color::Blue)]);
        i = i + 1;
    }
    let ghost f = views(ops@);
    fill_op(&mut ops, 23, 0xCD, Color::Yellow, Color::Blue);
    fill_op(&mut ops, 24, 0x20, Color::Black, Color::Cyan);
    write_op(&mut ops, 24, 1,
        "SOC-D v0.1.0  |  Rust nightly  |  x86_64-unknown-none  |  -serial stdio para shell",
        Color::Black, Color::Cyan);
    assert(views(ops@) =~= f + footer_ops());
    assert(views(ops@) =~= dashboard_spec());
    ops
}

/// The steps that refresh only the status bar, with the uptime in seconds.
pub fn update_statusbar(tick: u64) -> (ops: Vec<DrawOp>)
    ensures
        views(ops@) == statusbar_spec(tick),
{
    let mut ops: Vec<DrawOp> = Vec::new();
    fill_op(&mut ops, 24, 0x20, Color::Black, Color::Cyan);
    let secs = tick / 60;
    let mut msg = String::from_str(" SOC-D v0.1.0  |  uptime: ");
    push_dec(&mut msg, secs);
    msg.append("s  |  Heap: 8MB  |  'socd>' na serial");
    push_op(&mut ops, DrawOp::WriteAt { row: 24, col: 0, text: msg, fg: Color::Black, bg: Color::Cyan });
    assert(views(ops@) =~= statusbar_spec(tick));
    ops
}

} // verus!
