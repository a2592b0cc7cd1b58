//! The keyboard console: the line being typed, and the reading of a command
//! line into a command and its arguments.
use vstd::prelude::*;
use vstd::string::StringSliceAdditionalSpecFns;
use crate::discovery::{is_ws, is_whitespace, words, words_of, chars_of, same_text, all_digits, digits_value, digits_part};
use crate::util::string_push;

verus! {

/// The longest line, in UTF-8 bytes, the console keeps.
pub const MAX_LINE: usize = 128;

/// `s` without white space at either end.
pub open spec fn trim(s: Seq<char>) -> Seq<char>
    decreases s.len(),
{
    if s.len() == 0 {
        s
    } else if is_ws(s[0]) {
        trim(s.drop_first())
    } else if is_ws(s.last()) {
        trim(s.drop_last())
    } else {
        s
    }
}

/// What the console does with a key.
#[derive(Debug)]
pub enum KeyAction {
    /// Show the character.
    Echo(char),
    /// Rub out the last character on screen.
    Erase,
    /// Run the line (without white space at its ends) and show the prompt.
    Submit(String),
    /// Nothing to show.
    Ignore,
}

/// The line being typed.
pub struct LineBuffer {
    pub buf: String,
}

/// The characters of `v` as a string.
fn string_of(v: &Vec<char>, from: usize, to: usize) -> (s: String)
    requires
        from <= to <= v@.len(),
    ensures
        s@ == v@.subrange(from as int, to as int),
{
    let mut s = String::new();
    let mut i = from;
    while i < to
        invariant
            from <= i <= to,
            to <= v@.len(),
            s@ == v@.subrange(from as int, i as int),
        decreases to - i,
    {
        string_push(&mut s, v[i]);
        i = i + 1;
        assert(s@ =~= v@.subrange(from as int, i as int));
    }
    s
}

proof fn lemma_trim_range(s: Seq<char>, a: int, b: int)
    requires
        0 <= a <= b <= s.len(),
        forall|i: int| 0 <= i < a ==> is_ws(#[trigger] s[i]),
        forall|i: int| b <= i < s.len() ==> is_ws(#[trigger] s[i]),
        a == b || (!is_ws(s[a]) && !is_ws(s[b - 1])),
    ensures
        trim(s) == s.subrange(a, b),
    decreases s.len(),
{
    if s.len() == 0 {
        assert(s.subrange(a, b) =~= s);
    } else if is_ws(s[0]) {
        let t = s.drop_first();
        if a > 0 {
            assert forall|i: int| 0 <= i < a - 1 implies is_ws(#[trigger] t[i]) by {
                assert(t[i] == s[i + 1]);
            }
            assert forall|i: int| b - 1 <= i < t.len() implies is_ws(#[trigger] t[i]) by {
                assert(t[i] == s[i + 1]);
            }
            lemma_trim_range(t, a - 1, b - 1);
            assert(t.subrange(a - 1, b - 1) =~= s.subrange(a, b));
        } else {
            assert(a == b);
            assert forall|i: int| 0 <= i < t.len() implies is_ws(#[trigger] t[i]) by {
                assert(t[i] == s[i + 1]);
            }
            lemma_trim_range(t, 0, 0);
            assert(t.subrange(0, 0) =~= s.subrange(a, b));
        }
    } else if is_ws(s.last()) {
        assert(a == 0) by {
            if a > 0 {
                assert(is_ws(s[0]));
            }
        }
        let t = s.drop_last();
        assert(b < s.len()) by {
            if b == s.len() {
                assert(!is_ws(s[b - 1]));
            }
        }
        lemma_trim_range(t, a, b);
        assert(t.subrange(a, b) =~= s.subrange(a, b));
    } else {
        assert(a == 0) by {
            if a > 0 {
                assert(is_ws(s[0]));
            }
        }
        assert(b == s.len()) by {
            if b < s.len() {
                assert(is_ws(s[s.len() - 1]));
            }
        }
        assert(s.subrange(a, b) =~= s);
    }
}

/// `s` without white space at either end.
pub fn trim_string(s: &str) -> (r: String)
    ensures
        r@ == trim(s@),
{
    let v = chars_of(s);
    let mut a: usize = 0;
    while a < v.len() && is_whitespace(v[a])
        invariant
            a <= v@.len(),
            forall|i: int| 0 <= i < a ==> is_ws(#[trigger] v@[i]),
        decreases v@.len() - a,
    {
        a = a + 1;
    }
    let mut b: usize = v.len();
    while b > a && is_whitespace(v[b - 1])
        invariant
            a <= b <= v@.len(),
            forall|i: int| b <= i < v@.len() ==> is_ws(#[trigger] v@[i]),
            a < v@.len() ==> !is_ws(v@[a as int]),
        decreases b - a,
    {
        b = b - 1;
    }
    proof {
        if a < b {
            assert(!is_ws(v@[b - 1]));
        } else {
            assert(a == b);
        }
        lemma_trim_range(v@, a as int, b as int);
    }
    string_of(&v, a, b)
}

impl LineBuffer {
    /// An empty line.
    pub fn new() -> (l: LineBuffer)
        ensures
            l.buf@.len() == 0,
    {
        LineBuffer { buf: String::new() }
    }

    /// Takes a typed character: a newline submits the line and empties it; a
    /// backspace removes the last character, when there is one; any other
    /// character is added while the line holds fewer than 128 bytes.
    pub fn handle_character(&mut self, c: char) -> (a: KeyAction)
        ensures
            c == '\n' ==> (a matches KeyAction::Submit(l) && l@ == trim(old(self).buf@)) && final(self).buf@.len() == 0,
            c == '\x08' ==> if old(self).buf@.len() > 0 {
                a is Erase && final(self).buf@ == old(self).buf@.drop_last()
            } else {
                a is Ignore && final(self).buf@ == old(self).buf@
            },
            c != '\n' && c != '\x08' ==> if (vstd::utf8::encode_utf8(old(self).buf@).len() as usize) < MAX_LINE {
                (a matches KeyAction::Echo(e) && e == c) && final(self).buf@ == old(self).buf@.push(c)
            } else {
                a is Ignore && final(self).buf@ == old(self).buf@
            },
    {
        if c == '\n' {
            let line = trim_string(self.buf.as_str());
            self.buf = String::new();
            KeyAction::Submit(line)
        } else if c == '\x08' {
            let v = chars_of(self.buf.as_str());
            if v.len() > 0 {
                let s = string_of(&v, 0, v.len() - 1);
                assert(s@ =~= old(self).buf@.drop_last());
                self.buf = s;
                KeyAction::Erase
            } else {
                KeyAction::Ignore
            }
        } else {
            if self.buf.as_str().len() < MAX_LINE {
                string_push(&mut self.buf, c);
                KeyAction::Echo(c)
            } else {
                KeyAction::Ignore
            }
        }
    }
}

/// The console's commands.
#[derive(Clone, Copy, PartialEq, Eq, Structural, Debug)]
pub enum CommandKind {
    Help, Version, Status, Mem, Sandbox, Ps, Sched, Ls, Cat, Modules, Exec, Kill, Dag, Sync, Ct, Threat, Privacy,
    Devices, Handoff, Clipboard, Mobile, Theme, Ar, Cogn, Monitor, Top, Test, Pci, P2p, Peers, Ia, Suggest,
    Edge, Wasm, Xr, Quantum, Net, Syscall, Ui, Arm, Clear, Reboot, Unknown,
}

/// The command a word names.
pub open spec fn kind_of(w: Seq<char>) -> CommandKind {
    if w == "help"@ { CommandKind::Help }
    else if w == "version"@ { CommandKind::Version }
    else if w == "status"@ { CommandKind::Status }
    else if w == "mem"@ { CommandKind::Mem }
    else if w == "sandbox"@ || w == "sec"@ { CommandKind::Sandbox }
    else if w == "ps"@ { CommandKind::Ps }
    else if w == "sched"@ { CommandKind::Sched }
    else if w == "ls"@ { CommandKind::Ls }
    else if w == "cat"@ { CommandKind::Cat }
    else if w == "modules"@ { CommandKind::Modules }
    else if w == "exec"@ { CommandKind::Exec }
    else if w == "kill"@ { CommandKind::Kill }
    else if w == "dag"@ { CommandKind::Dag }
    else if w == "sync"@ { CommandKind::Sync }
    else if w == "ct"@ { CommandKind::Ct }
    else if w == "threat"@ { CommandKind::Threat }
    else if w == "privacy"@ { CommandKind::Privacy }
    else if w == "devices"@ { CommandKind::Devices }
    else if w == "handoff"@ { CommandKind::Handoff }
    else if w == "clipboard"@ { CommandKind::Clipboard }
    else if w == "mobile"@ { CommandKind::Mobile }
    else if w == "theme"@ { CommandKind::Theme }
    else if w == "ar"@ { CommandKind::Ar }
    else if w == "cogn"@ { CommandKind::Cogn }
    else if w == "monitor"@ { CommandKind::Monitor }
    else if w == "top"@ { CommandKind::Top }
    else if w == "test"@ { CommandKind::Test }
    else if w == "pci"@ { CommandKind::Pci }
    else if w == "p2p"@ { CommandKind::P2p }
    else if w == "peers"@ { CommandKind::Peers }
    else if w == "ia"@ { CommandKind::Ia }
    else if w == "suggest"@ { CommandKind::Suggest }
    else if w == "edge"@ { CommandKind::Edge }
    else if w == "wasm"@ { CommandKind::Wasm }
    else if w == "xr"@ { CommandKind::Xr }
    else if w == "quantum"@ { CommandKind::Quantum }
    else if w == "net"@ { CommandKind::Net }
    else if w == "syscall"@ { CommandKind::Syscall }
    else if w == "ui"@ { CommandKind::Ui }
    else if w == "arm"@ { CommandKind::Arm }
    else if w == "clear"@ { CommandKind::Clear }
    else if w == "reboot"@ { CommandKind::Reboot }
    else { CommandKind::Unknown }
}

/// The command a word names.
pub fn command_kind(w: &str) -> (k: CommandKind)
    ensures
        k == kind_of(w@),
{
    if same_text(w, "help") { CommandKind::Help }
    else if same_text(w, "version") { CommandKind::Version }
    else if same_text(w, "status") { CommandKind::Status }
    else if same_text(w, "mem") { CommandKind::Mem }
    else if same_text(w, "sandbox") || same_text(w, "sec") { CommandKind::Sandbox }
    else if same_text(w, "ps") { CommandKind::Ps }
    else if same_text(w, "sched") { CommandKind::Sched }
    else if same_text(w, "ls") { CommandKind::Ls }
    else if same_text(w, "cat") { CommandKind::Cat }
    else if same_text(w, "modules") { CommandKind::Modules }
    else if same_text(w, "exec") { CommandKind::Exec }
    else if same_text(w, "kill") { CommandKind::Kill }
    else if same_text(w, "dag") { CommandKind::Dag }
    else if same_text(w, "sync") { CommandKind::Sync }
    else if same_text(w, "ct") { CommandKind::Ct }
    else if same_text(w, "threat") { CommandKind::Threat }
    else if same_text(w, "privacy") { CommandKind::Privacy }
    else if same_text(w, "devices") { CommandKind::Devices }
    else if same_text(w, "handoff") { CommandKind::Handoff }
    else if same_text(w, "clipboard") { CommandKind::Clipboard }
    else if same_text(w, "mobile") { CommandKind::Mobile }
    else if same_text(w, "theme") { CommandKind::Theme }
    else if same_text(w, "ar") { CommandKind::Ar }
    else if same_text(w, "cogn") { CommandKind::Cogn }
    else if same_text(w, "monitor") { CommandKind::Monitor }
    else if same_text(w, "top") { CommandKind::Top }
    else if same_text(w, "test") { CommandKind::Test }
    else if same_text(w, "pci") { CommandKind::Pci }
    else if same_text(w, "p2p") { CommandKind::P2p }
    else if same_text(w, "peers") { CommandKind::Peers }
    else if same_text(w, "ia") { CommandKind::Ia }
    else if same_text(w, "suggest") { CommandKind::Suggest }
    else if same_text(w, "edge") { CommandKind::Edge }
    else if same_text(w, "wasm") { CommandKind::Wasm }
    else if same_text(w, "xr") { CommandKind::Xr }
    else if same_text(w, "quantum") { CommandKind::Quantum }
    else if same_text(w, "net") { CommandKind::Net }
    else if same_text(w, "syscall") { CommandKind::Syscall }
    else if same_text(w, "ui") { CommandKind::Ui }
    else if same_text(w, "arm") { CommandKind::Arm }
    else if same_text(w, "clear") { CommandKind::Clear }
    else if same_text(w, "reboot") { CommandKind::Reboot }
    else { CommandKind::Unknown }
}

/// A command line read into words: the command, what its first word was, and
/// the next two words, if present.
#[derive(Debug)]
pub struct ParsedCommand {
    pub kind: CommandKind,
    pub word: String,
    pub arg1: Option<String>,
    pub arg2: Option<String>,
}

/// Word `i` of `ws`, if there is one.
pub open spec fn word_at(ws: Seq<Seq<char>>, i: int) -> Option<Seq<char>> {
    if 0 <= i < ws.len() { Some(ws[i]) } else { None }
}

/// An optional string as plain characters.
pub open spec fn opt_text(o: Option<String>) -> Option<Seq<char>> {
    match o {
        Some(s) => Some(s@),
        None => None,
    }
}

/// Reads a command line: None when it has no words; else the command its first
/// word names and the next two words.
pub fn parse_command(cmd: &str) -> (r: Option<ParsedCommand>)
    ensures
        words(cmd@).len() == 0 <==> r is None,
        r matches Some(p) ==> {
            &&& p.kind == kind_of(words(cmd@)[0])
            &&& p.word@ == words(cmd@)[0]
            &&& opt_text(p.arg1) == word_at(words(cmd@), 1)
            &&& opt_text(p.arg2) == word_at(words(cmd@), 2)
        },
{
    let chars = chars_of(cmd);
    let ws = words_of(&chars);
    let ghost wv = ws@.map_values(|w: Vec<char>| w@);
    if ws.len() == 0 {
        return None;
    }
    let word = string_of(&ws[0], 0, ws[0].len());
    assert(word@ =~= wv[0]);
    let kind = command_kind(word.as_str());
    let arg1 = if ws.len() > 1 {
        let a = string_of(&ws[1], 0, ws[1].len());
        assert(a@ =~= wv[1]);
        Some(a)
    } else {
        None
    };
    let arg2 = if ws.len() > 2 {
        let a = string_of(&ws[2], 0, ws[2].len());
        assert(a@ =~= wv[2]);
        Some(a)
    } else {
        None
    };
    Some(ParsedCommand { kind, word, arg1, arg2 })
}

/// `u64::from_str`: an optional '+' and at least one ASCII digit, of value at
/// most `u64::MAX`.
pub open spec fn parse_u64(s: Seq<char>) -> Option<u64> {
    let d = digits_part(s);
    if d.len() == 0 || !all_digits(d) || digits_value(d) > u64::MAX {
        None
    } else {
        Some(digits_value(d) as u64)
    }
}

proof fn lemma_digits_prefix(d: Seq<char>, k: int)
    requires
        0 <= k <= d.len(),
        all_digits(d),
    ensures
        digits_value(d.subrange(0, k)) <= digits_value(d),
    decreases d.len() - k,
{
    if k < d.len() {
        lemma_digits_prefix(d, k + 1);
        assert(d.subrange(0, k + 1).drop_last() =~= d.subrange(0, k));
    } else {
        assert(d.subrange(0, k) =~= d);
    }
}

/// Reads an unsigned 64-bit decimal number.
pub fn parse_u64_str(s: &str) -> (r: Option<u64>)
    ensures
        r == parse_u64(s@),
{
    let v = chars_of(s);
    let start: usize = if v.len() > 0 && v[0] == '+' { 1 } else { 0 };
    let ghost d = digits_part(v@);
    assert(d =~= v@.subrange(start as int, v@.len() as int));
    if start >= v.len() {
        return None;
    }
    let mut acc: u64 = 0;
    let mut i: usize = start;
    while i < v.len()
        invariant
            start <= i <= v@.len(),
            start < v@.len(),
            v@ == s@,
            d == v@.subrange(start as int, v@.len() as int),
            d == digits_part(v@),
            forall|j: int| start <= j < i ==> '0' <= #[trigger] v@[j] <= '9',
            acc == digits_value(v@.subrange(start as int, i as int)),
        decreases v@.len() - i,
    {
        let c = v[i];
        assert(v@.subrange(start as int, i + 1).drop_last() =~= v@.subrange(start as int, i as int));
        if c < '0' || c > '9' {
            assert(d[i - start] == c);
            assert(!('0' <= d[i - start] <= '9'));
            return None;
        }
        let digit = (c as u32 - 48) as u64;
        if acc > (u64::MAX - digit) / 10 {
            proof {
                assert(d.subrange(0, i + 1 - start) =~= v@.subrange(start as int, i + 1));
                assert(digits_value(v@.subrange(start as int, i + 1)) == acc * 10 + digit);
                assert(acc * 10 + digit > u64::MAX) by (nonlinear_arith)
                    requires
                        acc > (u64::MAX - digit) / 10,
                        digit <= 9;
                if all_digits(d) {
                    lemma_digits_prefix(d, (i + 1 - start) as int);
                }
            }
            return None;
        }
        proof {
            assert(acc * 10 + digit <= u64::MAX) by (nonlinear_arith)
                requires
                    acc <= (u64::MAX - digit) / 10,
                    digit <= 9;
        }
        acc = acc * 10 + digit;
        i = i + 1;
    }
    assert(v@.subrange(start as int, i as int) =~= d);
    Some(acc)
}

/// The subcommands of "dag".
#[derive(Debug)]
pub enum DagCmd {
    Ls,
    Stats,
    Verify,
    History(String),
    Usage,
}

/// Reads the argument of "dag": none or "ls" lists, "stats", "verify", a path
/// starting with '/' shows its history, anything else the usage.
pub fn dag_cmd(arg: Option<&str>) -> (r: DagCmd)
    ensures
        match arg {
            None => r is Ls,
            Some(a) => if a@ == "ls"@ {
                r is Ls
            } else if a@ == "stats"@ {
                r is Stats
            } else if a@ == "verify"@ {
                r is Verify
            } else if a@.len() > 0 && a@[0] == '/' {
                r matches DagCmd::History(p) && p@ == a@
            } else {
                r is Usage
            },
        },
{
    match arg {
        None => DagCmd::Ls,
        Some(a) => {
            if same_text(a, "ls") {
                DagCmd::Ls
            } else if same_text(a, "stats") {
                DagCmd::Stats
            } else if same_text(a, "verify") {
                DagCmd::Verify
            } else {
                let v = chars_of(a);
                if v.len() > 0 && v[0] == '/' {
                    DagCmd::History(String::from_str(a))
                } else {
                    DagCmd::Usage
                }
            }
        },
    }
}

/// The subcommands of "ct".
#[derive(Clone, Copy, Debug)]
pub enum CtCmd {
    Ls,
    Stop(Option<u64>),
    Rm(Option<u64>),
    Stats,
    Usage,
}

/// Reads the arguments of "ct": none or "ls" lists; "stop" and "rm" take an id
/// (None when it is missing or not a number); "stats"; anything else the usage.
pub fn ct_cmd(sub: Option<&str>, arg: Option<&str>) -> (r: CtCmd)
    ensures
        ({
            let id = match arg { Some(a) => parse_u64(a@), None => None };
            match sub {
                None => r is Ls,
                Some(s) => if s@ == "ls"@ {
                    r is Ls
                } else if s@ == "stop"@ {
                    r matches CtCmd::Stop(x) && x == id
                } else if s@ == "rm"@ {
                    r matches CtCmd::Rm(x) && x == id
                } else if s@ == "stats"@ {
                    r is Stats
                } else {
                    r is Usage
                },
            }
        }),
{
    let id = match arg {
        Some(a) => parse_u64_str(a),
        None => None,
    };
    match sub {
        None => CtCmd::Ls,
        Some(s) => {
            if same_text(s, "ls") {
                CtCmd::Ls
            } else if same_text(s, "stop") {
                CtCmd::Stop(id)
            } else if same_text(s, "rm") {
                CtCmd::Rm(id)
            } else if same_text(s, "stats") {
                CtCmd::Stats
            } else {
                CtCmd::Usage
            }
        },
    }
}

/// The subcommands of "cogn".
#[derive(Clone, Copy, Debug)]
pub enum CognCmd {
    Status,
    Approve(Option<u64>),
    Log,
    Tick,
    Usage,
}

/// Reads the arguments of "cogn": none or "status"; "approve" with an id;
/// "log"; "tick"; anything else the usage.
pub fn cogn_cmd(sub: Option<&str>, arg: Option<&str>) -> (r: CognCmd)
    ensures
        ({
            let id = match arg { Some(a) => parse_u64(a@), None => None };
            match sub {
                None => r is Status,
                Some(s) => if s@ == "status"@ {
                    r is Status
                } else if s@ == "approve"@ {
                    r matches CognCmd::Approve(x) && x == id
                } else if s@ == "log"@ {
                    r is Log
                } else if s@ == "tick"@ {
                    r is Tick
                } else {
                    r is Usage
                },
            }
        }),
{
    let id = match arg {
        Some(a) => parse_u64_str(a),
        None => None,
    };
    match sub {
        None => CognCmd::Status,
        Some(s) => {
            if same_text(s, "status") {
                CognCmd::Status
            } else if same_text(s, "approve") {
                CognCmd::Approve(id)
            } else if same_text(s, "log") {
                CognCmd::Log
            } else if same_text(s, "tick") {
                CognCmd::Tick
            } else {
                CognCmd::Usage
            }
        },
    }
}

/// The subcommands of "test".
#[derive(Clone, Copy, PartialEq, Eq, Structural, Debug)]
pub enum TestCmd {
    Run,
    Status,
    Usage,
}

/// Reads the argument of "test": none or "run", "status", anything else the usage.
pub fn test_cmd(arg: Option<&str>) -> (r: TestCmd)
    ensures
        r == match arg {
            None => TestCmd::Run,
            Some(a) => if a@ == "run"@ { TestCmd::Run } else if a@ == "status"@ { TestCmd::Status } else { TestCmd::Usage },
        },
{
    match arg {
        None => TestCmd::Run,
        Some(a) => if same_text(a, "run") {
            TestCmd::Run
        } else if same_text(a, "status") {
            TestCmd::Status
        } else {
            TestCmd::Usage
        },
    }
}

/// What "handoff" was given.
#[derive(Clone, Copy, Debug)]
pub enum HandoffArgs {
    /// A word is missing.
    Usage,
    /// The session id is not a number.
    BadSession,
    /// The session id and the device number as typed, if it is a number.
    Parsed { session: u64, device: Option<u64> },
}

/// Reads the arguments of "handoff <session_id> <device_index>".
pub fn handoff_args(sid: Option<&str>, dev: Option<&str>) -> (r: HandoffArgs)
    ensures
        match (sid, dev) {
            (Some(s), Some(d)) => match parse_u64(s@) {
                None => r is BadSession,
                Some(v) => r matches HandoffArgs::Parsed { session, device } && session == v && device == parse_u64(d@),
            },
            _ => r is Usage,
        },
{
    match (sid, dev) {
        (Some(s), Some(d)) => match parse_u64_str(s) {
            None => HandoffArgs::BadSession,
            Some(v) => HandoffArgs::Parsed { session: v, device: parse_u64_str(d) },
        },
        _ => HandoffArgs::Usage,
    }
}

} // verus!
