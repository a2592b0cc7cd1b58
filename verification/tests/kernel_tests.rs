use socd::arm::{PageTableEntry, va_index};
use socd::elf_loader::{load_module, ElfError};
use socd::scheduler::{Scheduler, Priority};
use socd::shell::{complete, longest_common_prefix, find_in_history, starts_with};
use socd::virt::FsNamespace;
use socd::ia::{MetricsCollector, MetricSample, CollectInputs};
use socd::p2p_crypto::{CryptoSession, SessionKey, DecryptResult};
use socd::registry::{ModuleRegistry, ModuleStatusInfo, ModulePriority, ModuleState};
use socd::arm::ExceptionClass;
use socd::shell::ShellState;
use socd::registry::{register_and_init, KernelModule};
use socd::p2p_crypto::EncryptedPacket;
use socd::virtio_blk::{plan_transfer, request_len_ok, BlkRequest};

#[test]
fn page_entry_keeps_address_and_attributes_apart() {
    let e = PageTableEntry::new_page(0x4000_2000, 0x703);
    assert_eq!(e.phys_addr(), 0x4000_2000);
    assert_eq!(e.attrs(), 0x703);
    assert!(e.is_valid());
}

#[test]
fn virtual_address_indices() {
    let va: u64 = (3 << 39) | (5 << 30) | (7 << 21) | (9 << 12) | 0x123;
    assert_eq!(va_index(va, 0), 3);
    assert_eq!(va_index(va, 1), 5);
    assert_eq!(va_index(va, 2), 7);
    assert_eq!(va_index(va, 3), 9);
}

#[test]
fn elf_header_errors() {
    assert!(matches!(load_module("m", &[0u8; 10], 0, &[]), Err(ElfError::TooSmall)));
    let mut h = vec![0u8; 64];
    assert!(matches!(load_module("m", &h, 0, &[]), Err(ElfError::InvalidMagic)));
    h[0..4].copy_from_slice(&[0x7f, b'E', b'L', b'F']);
    h[4] = 1;
    assert!(matches!(load_module("m", &h, 0, &[]), Err(ElfError::NotElf64)));
    h[4] = 2;
    h[5] = 2;
    assert!(matches!(load_module("m", &h, 0, &[]), Err(ElfError::NotLittleEndian)));
    h[5] = 1;
    h[16] = 2;
    assert!(matches!(load_module("m", &h, 0, &[]), Err(ElfError::NotRelocatable)));
    h[16] = 1;
    h[18] = 0xB7;
    assert!(matches!(load_module("m", &h, 0, &[]), Err(ElfError::WrongArchitecture)));
    h[18] = 62;
    assert!(matches!(load_module("m", &h, 0, &[]), Err(ElfError::InvalidSectionOffset)));
}

#[test]
fn scheduler_runs_the_highest_priority_first() {
    let mut s = Scheduler::new();
    s.init(0x1000);
    let low = s.spawn("low", 0x2000, Priority::Low);
    let high = s.spawn("high", 0x3000, Priority::High);
    assert_ne!(low, high);
    assert_eq!(s.schedule(), Some(high));
}

#[test]
fn shell_completion() {
    let c = complete(b"he");
    assert!(c.iter().any(|w| w == b"help"));
    assert!(c.iter().all(|w| starts_with(w, b"he")));
    let words = vec![b"status".to_vec(), b"stats".to_vec(), b"stat".to_vec()];
    assert_eq!(longest_common_prefix(&words), b"stat".to_vec());
    assert_eq!(longest_common_prefix(&vec![]), Vec::<u8>::new());
}

#[test]
fn shell_history_search_finds_newest() {
    let h = vec![b"ls /etc".to_vec(), b"cat /etc/hostname".to_vec(), b"ls /tmp".to_vec()];
    assert_eq!(find_in_history(b"ls", &h), Some(2));
    assert_eq!(find_in_history(b"host", &h), Some(1));
    assert_eq!(find_in_history(b"zzz", &h), None);
}

#[test]
fn namespace_read_after_write() {
    let mut ns = FsNamespace::new("/ct/1".to_string());
    assert!(ns.read("/a").is_none());
    ns.write("/a", vec![1, 2]);
    ns.write("/b", vec![3]);
    ns.write("/a", vec![4]);
    assert_eq!(ns.read("/a"), Some(&[4u8][..]));
    assert_eq!(ns.read("/b"), Some(&[3u8][..]));
}

#[test]
fn collector_latest_is_last_pushed() {
    let mut c = MetricsCollector::new(2);
    assert!(c.latest().is_none());
    let inputs = CollectInputs { heap_used: 50, heap_free: 50, heap_total: 100, running: 1, total_processes: 3,
        context_switches: 9, p2p_active: 2, tx_bytes: 4096, rx_bytes: 2048, sandbox_violations: 0 };
    for t in 1..=3u64 {
        let s = MetricSample::collect(t, &inputs);
        c.push(s);
        assert_eq!(c.latest().unwrap().tick, t);
    }
    assert_eq!(c.latest().unwrap().heap_usage_pct, 50);
}

#[test]
fn cipher_applied_twice_gives_the_message_back() {
    let s = CryptoSession { peer_id: [1; 32], session_key: SessionKey([9; 32]), message_counter: 0,
        established_at_tick: 0, messages_sent: 0, messages_received: 0, bytes_encrypted: 0 };
    let mut a = s;
    let mut b = s;
    let p = a.encrypt(b"hello", 5, &None);
    assert_ne!(p.ciphertext, b"hello".to_vec());
    let q = b.encrypt(&p.ciphertext, 5, &None);
    assert_eq!(q.ciphertext, b"hello".to_vec());
    assert_eq!(a.messages_sent, 1);
    assert_eq!(a.bytes_encrypted, 5);
}

#[test]
fn decrypt_refuses_other_versions() {
    let mut s = CryptoSession { peer_id: [1; 32], session_key: SessionKey([9; 32]), message_counter: 0,
        established_at_tick: 0, messages_sent: 0, messages_received: 0, bytes_encrypted: 0 };
    let mut p = s.encrypt(b"data", 1, &None);
    p.version = 2;
    assert!(matches!(s.decrypt(&p), DecryptResult::InvalidVersion));
    assert_eq!(s.messages_received, 0);
}

#[test]
fn registry_knows_each_name_once() {
    let mut r = ModuleRegistry::new();
    let st = ModuleStatusInfo { name: "net.stack", version: "1.0", priority: ModulePriority::High, memory_usage_kb: 64 };
    r.register(st);
    r.register(st);
    assert_eq!(r.stats().total, 1);
    assert!(matches!(r.get_state("net.stack"), Some(ModuleState::Registered)));
    r.set_state("net.stack", ModuleState::Active);
    assert!(matches!(r.get_state("net.stack"), Some(ModuleState::Active)));
    assert_eq!(r.active_modules().len(), 1);
    assert!(r.get_state("other").is_none());
    assert_eq!(ModulePriority::Critical.rank(), 0);
}

#[test]
fn collector_recent_samples_oldest_first() {
    let mut c = MetricsCollector::new(3);
    let inputs = CollectInputs { heap_used: 10, heap_free: 90, heap_total: 100, running: 1, total_processes: 1,
        context_switches: 0, p2p_active: 0, tx_bytes: 0, rx_bytes: 0, sandbox_violations: 0 };
    for t in 1..=5u64 {
        c.push(MetricSample::collect(t, &inputs));
    }
    let ticks: Vec<u64> = c.recent_samples(2).iter().map(|s| s.tick).collect();
    assert_eq!(ticks, vec![4, 5]);
    let all: Vec<u64> = c.recent_samples(10).iter().map(|s| s.tick).collect();
    assert_eq!(all, vec![3, 4, 5]);
}

fn type_line(sh: &mut ShellState, text: &[u8]) {
    for &b in text {
        sh.process_byte(b);
    }
    sh.process_byte(b'\r');
}

#[test]
fn down_arrow_moves_to_the_next_newer_entry() {
    let mut sh = ShellState::new();
    type_line(&mut sh, b"ls");
    type_line(&mut sh, b"ps");
    type_line(&mut sh, b"mem");
    for b in [0x1Bu8, b'[', b'A', 0x1B, b'[', b'A', 0x1B, b'[', b'A'] {
        sh.process_byte(b);
    }
    assert_eq!(sh.line(), b"ls");
    for b in [0x1Bu8, b'[', b'B'] {
        sh.process_byte(b);
    }
    assert_eq!(sh.line(), b"ps");
    for b in [0x1Bu8, b'[', b'B'] {
        sh.process_byte(b);
    }
    assert_eq!(sh.line(), b"mem");
    for b in [0x1Bu8, b'[', b'B'] {
        sh.process_byte(b);
    }
    assert_eq!(sh.line(), b"");
    assert_eq!(sh.commands_run(), 3);
}

#[test]
fn every_listed_exception_code_decodes_to_its_class() {
    let table = [
        (0x00, ExceptionClass::Unknown), (0x01, ExceptionClass::WFx), (0x03, ExceptionClass::MCR_MRC),
        (0x15, ExceptionClass::SVC_AA64), (0x16, ExceptionClass::HVC_AA64), (0x17, ExceptionClass::SMC_AA64),
        (0x18, ExceptionClass::MSR_MRS), (0x20, ExceptionClass::InstructionAbort),
        (0x21, ExceptionClass::InstructionAbortEl), (0x22, ExceptionClass::PCAlignFault),
        (0x24, ExceptionClass::DataAbort), (0x25, ExceptionClass::DataAbortEl), (0x26, ExceptionClass::SPAlignFault),
        (0x2C, ExceptionClass::FloatingPoint), (0x2F, ExceptionClass::SError), (0x31, ExceptionClass::BreakpointEl),
        (0x33, ExceptionClass::StepEl), (0x35, ExceptionClass::WatchpointEl), (0x3C, ExceptionClass::BRK),
    ];
    for (code, class) in table {
        assert_eq!(ExceptionClass::from_u32(code), class);
    }
    assert_eq!(ExceptionClass::from_u32(0x02), ExceptionClass::Unknown);
    assert_eq!(ExceptionClass::from_u32(0x3F), ExceptionClass::Unknown);
    assert_eq!(ExceptionClass::PCAlignFault.name(), "PC Alignment Fault");
}

#[test]
fn decrypt_gives_back_what_encrypt_made() {
    let mut a = CryptoSession { peer_id: [1; 32], session_key: SessionKey([9; 32]), message_counter: 0,
        established_at_tick: 0, messages_sent: 0, messages_received: 0, bytes_encrypted: 0 };
    let mut b = a;
    let p = a.encrypt(b"ola mundo", 7, &None);
    assert_eq!(p.ciphertext.len(), 9);
    match b.decrypt(&p) {
        DecryptResult::Success(m) => assert_eq!(m, b"ola mundo".to_vec()),
        _ => panic!("a packet from encrypt must decrypt"),
    }
    assert_eq!(b.messages_received, 1);
}

#[test]
fn decrypt_refuses_a_changed_ciphertext() {
    let mut a = CryptoSession { peer_id: [1; 32], session_key: SessionKey([9; 32]), message_counter: 0,
        established_at_tick: 0, messages_sent: 0, messages_received: 0, bytes_encrypted: 0 };
    let mut b = a;
    let p = a.encrypt(b"ola mundo", 7, &None);
    let mut q = EncryptedPacket { version: p.version, sender_id: p.sender_id, nonce: p.nonce, ciphertext: p.ciphertext.clone(),
        auth_tag: p.auth_tag };
    q.ciphertext[0] ^= 1;
    assert!(matches!(b.decrypt(&q), DecryptResult::AuthFailed));
    assert_eq!(b.messages_received, 0);
}

struct NetModule;

impl KernelModule for NetModule {
    fn name(&self) -> &'static str {
        "net.stack"
    }
    fn version(&self) -> &'static str {
        "1.0"
    }
    fn description(&self) -> &'static str {
        "rede"
    }
    fn init(&self) -> Result<(), &'static str> {
        Ok(())
    }
    fn cleanup(&self) {}
}

struct BrokenModule;

impl KernelModule for BrokenModule {
    fn name(&self) -> &'static str {
        "driver.broken"
    }
    fn version(&self) -> &'static str {
        "0.1"
    }
    fn description(&self) -> &'static str {
        "falha sempre"
    }
    fn init(&self) -> Result<(), &'static str> {
        Err("sem hardware")
    }
    fn cleanup(&self) {}
}

#[test]
fn register_and_init_marks_only_the_module_itself() {
    let mut r = ModuleRegistry::new();
    let other = ModuleStatusInfo { name: "fs.tmpfs", version: "1.0", priority: ModulePriority::High, memory_usage_kb: 0 };
    r.register(other);
    assert_eq!(register_and_init(&mut r, &NetModule), ("net.stack", Ok(())));
    assert!(matches!(r.get_state("net.stack"), Some(ModuleState::Active)));
    assert!(matches!(r.get_state("fs.tmpfs"), Some(ModuleState::Registered)));
    assert_eq!(register_and_init(&mut r, &BrokenModule), ("driver.broken", Err("sem hardware")));
    assert!(matches!(r.get_state("driver.broken"), Some(ModuleState::Failed(m)) if m == "sem hardware"));
    assert_eq!(register_and_init(&mut r, &NetModule), ("net.stack", Ok(())));
    assert_eq!(r.stats().total, 3);
}

#[test]
fn saved_history_is_trimmed_of_unicode_white_space() {
    let mut sh = ShellState::new();
    sh.load_history("  ls \u{a0}\n\u{3000}ps\u{2003}\r\n \u{a0} \n".as_bytes());
    assert_eq!(sh.history().clone(), vec![b"ls".to_vec(), b"ps".to_vec()]);
    let mut other = ShellState::new();
    other.load_history(&[0xff, b'\n', b'x']);
    assert!(other.history().is_empty());
}

#[test]
fn typed_bytes_are_echoed_with_the_line_redrawn() {
    let mut sh = ShellState::new();
    assert_eq!(sh.process_byte(b'a').before, b"a".to_vec());
    assert_eq!(sh.process_byte(b'b').before, b"b".to_vec());
    for b in [0x1Bu8, b'['] {
        assert!(sh.process_byte(b).before.is_empty());
    }
    assert_eq!(sh.process_byte(b'D').before, b"\x1b[D".to_vec());
    assert_eq!(sh.process_byte(b'X').before, b"Xb\x1b[1D".to_vec());
    assert_eq!(sh.line(), b"aXb");
    assert_eq!(sh.process_byte(0x7F).before, b"\x08\x1b[Kb\x1b[1D".to_vec());
    assert_eq!(sh.process_byte(0x01).before, b"\x1b[1D".to_vec());
    assert_eq!(sh.process_byte(0x05).before, b"\x1b[2C".to_vec());
    let out = sh.process_byte(b'\r');
    assert_eq!(out.before, b"\r\n".to_vec());
    assert_eq!(out.command, Some(b"ab".to_vec()));
    assert!(out.prompt);
    let up = [0x1Bu8, b'[', b'A'];
    sh.process_byte(up[0]);
    sh.process_byte(up[1]);
    assert_eq!(sh.process_byte(up[2]).before, b"\x1b[Kab".to_vec());
}

#[test]
fn transfers_are_cut_into_sector_requests() {
    let plan = plan_transfer(1024, 9000).unwrap();
    assert_eq!(plan, vec![
        BlkRequest { sector: 2, offset: 0, len: 4096, padded: 4096 },
        BlkRequest { sector: 10, offset: 4096, len: 4096, padded: 4096 },
        BlkRequest { sector: 18, offset: 8192, len: 808, padded: 1024 },
    ]);
    assert!(plan_transfer(100, 10).is_none());
    assert!(plan_transfer(0, 0).unwrap().is_empty());
    assert!(request_len_ok(512) && request_len_ok(4096));
    assert!(!request_len_ok(0) && !request_len_ok(513) && !request_len_ok(8192));
}
