//! The cross-device bus: the devices of the cluster, sessions that move from
//! one device to another, and the shared clipboard. Handoffs and clipboard
//! copies are written to the versioned graph so that peers receive them.
use vstd::prelude::*;
use crate::keyed::IdTable;
use crate::dag::{SyncEngine, file_written, counters_below_max, path_bytes};
use crate::util::{hex_of, push_hex_byte, string_push, push_dec, dec_of, copy_bytes};

verus! {

/// The kinds of device that join a cluster.
#[derive(Clone, Copy, PartialEq, Eq, Structural, Debug)]
pub enum DeviceKind {
    Desktop,
    Laptop,
    Mobile,
    Tablet,
    ArGlasses,
    VrHeadset,
    SmartTv,
    IoT,
    Server,
}

/// The name of a device kind.
pub open spec fn kind_text(k: DeviceKind) -> Seq<char> {
    match k {
        DeviceKind::Desktop => "desktop"@,
        DeviceKind::Laptop => "laptop"@,
        DeviceKind::Mobile => "mobile"@,
        DeviceKind::Tablet => "tablet"@,
        DeviceKind::ArGlasses => "ar-glasses"@,
        DeviceKind::VrHeadset => "vr-headset"@,
        DeviceKind::SmartTv => "smart-tv"@,
        DeviceKind::IoT => "iot"@,
        DeviceKind::Server => "server"@,
    }
}

/// The usual screen size of a device kind, width then height.
pub open spec fn kind_resolution(k: DeviceKind) -> (u32, u32) {
    match k {
        DeviceKind::Desktop => (2560, 1440),
        DeviceKind::Laptop => (1920, 1080),
        DeviceKind::Mobile => (1080, 2340),
        DeviceKind::Tablet => (2048, 1536),
        DeviceKind::ArGlasses => (1832, 1920),
        DeviceKind::VrHeadset => (2160, 2160),
        DeviceKind::SmartTv => (3840, 2160),
        DeviceKind::IoT => (320, 240),
        DeviceKind::Server => (0, 0),
    }
}

/// The input means of a device kind.
pub open spec fn kind_inputs(k: DeviceKind) -> Seq<char> {
    match k {
        DeviceKind::Desktop | DeviceKind::Laptop => "keyboard+mouse+touch"@,
        DeviceKind::Mobile | DeviceKind::Tablet => "touch+voice+gyro"@,
        DeviceKind::ArGlasses | DeviceKind::VrHeadset => "gesture+gaze+voice+controller"@,
        DeviceKind::SmartTv => "remote+voice"@,
        DeviceKind::IoT => "sensors"@,
        DeviceKind::Server => "none"@,
    }
}

impl DeviceKind {
    /// The kind's name.
    pub fn as_str(&self) -> (s: &'static str)
        ensures
            s@ == kind_text(*self),
    {
        match self {
            DeviceKind::Desktop => "desktop",
            DeviceKind::Laptop => "laptop",
            DeviceKind::Mobile => "mobile",
            DeviceKind::Tablet => "tablet",
            DeviceKind::ArGlasses => "ar-glasses",
            DeviceKind::VrHeadset => "vr-headset",
            DeviceKind::SmartTv => "smart-tv",
            DeviceKind::IoT => "iot",
            DeviceKind::Server => "server",
        }
    }

    /// The usual screen size of the kind.
    pub fn default_resolution(&self) -> (r: (u32, u32))
        ensures
            r == kind_resolution(*self),
    {
        match self {
            DeviceKind::Desktop => (2560, 1440),
            DeviceKind::Laptop => (1920, 1080),
            DeviceKind::Mobile => (1080, 2340),
            DeviceKind::Tablet => (2048, 1536),
            DeviceKind::ArGlasses => (1832, 1920),
            DeviceKind::VrHeadset => (2160, 2160),
            DeviceKind::SmartTv => (3840, 2160),
            DeviceKind::IoT => (320, 240),
            DeviceKind::Server => (0, 0),
        }
    }

    /// The input means of the kind.
    pub fn input_caps(&self) -> (s: &'static str)
        ensures
            s@ == kind_inputs(*self),
    {
        match self {
            DeviceKind::Desktop | DeviceKind::Laptop => "keyboard+mouse+touch",
            DeviceKind::Mobile | DeviceKind::Tablet => "touch+voice+gyro",
            DeviceKind::ArGlasses | DeviceKind::VrHeadset => "gesture+gaze+voice+controller",
            DeviceKind::SmartTv => "remote+voice",
            DeviceKind::IoT => "sensors",
            DeviceKind::Server => "none",
        }
    }
}

/// A device of the cluster.
#[derive(Debug)]
pub struct DeviceInfo {
    pub node_id: [u8; 32],
    pub name: String,
    pub kind: DeviceKind,
    pub online: bool,
    pub last_seen: u64,
    /// Charge in percent, where the device has a battery.
    pub battery: Option<u8>,
    pub cpu_load: u8,
    pub ram_free_mb: u32,
    pub local_ip: [u8; 4],
}

impl DeviceInfo {
    /// This machine as a cluster device: an online desktop named "socd-node" at
    /// 10.0.2.15 with 256 MB free.
    pub fn this_device(node_id: [u8; 32], tick: u64) -> (d: DeviceInfo)
        ensures
            d.node_id == node_id,
            d.name@ == "socd-node"@,
            d.kind == DeviceKind::Desktop,
            d.online,
            d.last_seen == tick,
            d.battery.is_none(),
            d.cpu_load == 0,
            d.ram_free_mb == 256,
            d.local_ip == [10u8, 0u8, 2u8, 15u8],
    {
        DeviceInfo {
            node_id,
            name: String::from_str("socd-node"),
            kind: DeviceKind::Desktop,
            online: true,
            last_seen: tick,
            battery: None,
            cpu_load: 0,
            ram_free_mb: 256,
            local_ip: [10, 0, 2, 15],
        }
    }

    /// The first four bytes of the node id in hexadecimal, then "..".
    pub fn node_id_short(&self) -> (s: String)
        ensures
            s@ == hex_of(self.node_id@.subrange(0, 4)) + ".."@,
    {
        let mut s = String::new();
        let mut i: usize = 0;
        while i < 4
            invariant
                i <= 4,
                self.node_id@.len() == 32,
                s@ == hex_of(self.node_id@.subrange(0, i as int)),
            decreases 4 - i,
        {
            push_hex_byte(&mut s, self.node_id[i]);
            i = i + 1;
            assert(self.node_id@.subrange(0, i as int).drop_last() =~= self.node_id@.subrange(0, i - 1));
        }
        let ghost h = s@;
        string_push(&mut s, '.');
        string_push(&mut s, '.');
        proof {
            reveal_strlit("..");
            assert(s@ =~= h + ".."@);
        }
        s
    }

    /// A copy of the record.
    pub fn duplicate(&self) -> (c: DeviceInfo)
        ensures
            c == *self,
    {
        DeviceInfo {
            node_id: self.node_id,
            name: self.name.clone(),
            kind: self.kind,
            online: self.online,
            last_seen: self.last_seen,
            battery: self.battery,
            cpu_load: self.cpu_load,
            ram_free_mb: self.ram_free_mb,
            local_ip: self.local_ip,
        }
    }
}

/// Where a session is in its life.
#[derive(Clone, Copy, PartialEq, Eq, Structural, Debug)]
pub enum SessionState {
    Active,
    Suspended,
    Transferring,
    Resumed,
}

/// An application session that can move between devices.
#[derive(Debug)]
pub struct CrossSession {
    pub id: u64,
    pub app_name: String,
    pub state: SessionState,
    /// The device the session began on.
    pub origin: [u8; 32],
    /// The device the session is on now.
    pub current: [u8; 32],
    /// The application's state.
    pub payload: Vec<u8>,
    pub created_at: u64,
    pub transferred_at: Option<u64>,
}

impl CrossSession {
    /// An active session begun on `node_id`.
    pub fn new(id: u64, app_name: &str, node_id: [u8; 32], payload: Vec<u8>, tick: u64) -> (s: CrossSession)
        ensures
            s.id == id,
            s.app_name@ == app_name@,
            s.state == SessionState::Active,
            s.origin == node_id,
            s.current == node_id,
            s.payload == payload,
            s.created_at == tick,
            s.transferred_at.is_none(),
    {
        CrossSession {
            id,
            app_name: String::from_str(app_name),
            state: SessionState::Active,
            origin: node_id,
            current: node_id,
            payload,
            created_at: tick,
            transferred_at: None,
        }
    }
}

/// The session after it moved to `target` at `tick`.
pub open spec fn handed_off(s: CrossSession, target: [u8; 32], tick: u64) -> CrossSession {
    CrossSession {
        id: s.id,
        app_name: s.app_name,
        state: SessionState::Resumed,
        origin: s.origin,
        current: target,
        payload: s.payload,
        created_at: s.created_at,
        transferred_at: Some(tick),
    }
}

/// What the shared clipboard holds.
#[derive(Debug)]
pub enum ClipboardContent {
    Text(String),
    Bytes(Vec<u8>),
    File { path: String, size: usize },
    Empty,
}

/// The name of a clipboard content's kind.
pub open spec fn clip_kind_text(c: ClipboardContent) -> Seq<char> {
    match c {
        ClipboardContent::Text(_) => "text"@,
        ClipboardContent::Bytes(_) => "bytes"@,
        ClipboardContent::File { .. } => "file"@,
        ClipboardContent::Empty => "empty"@,
    }
}

/// The bytes recorded in the graph for a clipboard content: the UTF-8 of a text
/// or of a file's path, the bytes themselves, or nothing.
pub open spec fn clip_bytes(c: ClipboardContent) -> Seq<u8> {
    match c {
        ClipboardContent::Text(s) => path_bytes(s@),
        ClipboardContent::Bytes(b) => b@,
        ClipboardContent::File { path, .. } => path_bytes(path@),
        ClipboardContent::Empty => Seq::empty(),
    }
}

impl ClipboardContent {
    /// The content's kind.
    pub fn as_str(&self) -> (s: &'static str)
        ensures
            s@ == clip_kind_text(*self),
    {
        match self {
            ClipboardContent::Text(_) => "text",
            ClipboardContent::Bytes(_) => "bytes",
            ClipboardContent::File { .. } => "file",
            ClipboardContent::Empty => "empty",
        }
    }

    /// The bytes recorded in the graph for this content.
    pub fn to_bytes(&self) -> (b: Vec<u8>)
        ensures
            b@ == clip_bytes(*self),
    {
        match self {
            ClipboardContent::Text(s) => copy_bytes(s.as_str().as_bytes()),
            ClipboardContent::Bytes(b) => copy_bytes(b.as_slice()),
            ClipboardContent::File { path, .. } => copy_bytes(path.as_str().as_bytes()),
            ClipboardContent::Empty => Vec::new(),
        }
    }
}

/// What the bus reports about the cluster.
#[derive(Debug)]
pub enum PresenceEvent {
    DeviceOnline { node_id: [u8; 32], kind: DeviceKind, name: String },
    DeviceOffline { node_id: [u8; 32] },
    SessionHandoff { session_id: u64, from: [u8; 32], to: [u8; 32] },
    ClipboardSync { from: [u8; 32] },
}

/// Counts kept by the bus.
#[derive(Clone, Copy, Debug)]
pub struct CrossDeviceStats {
    pub devices_seen: usize,
    pub sessions_created: usize,
    pub handoffs_done: usize,
    pub clipboard_syncs: usize,
}

/// Why a handoff failed.
#[derive(Clone, Copy, PartialEq, Eq, Structural, Debug)]
pub enum HandoffError {
    SessionNotFound,
    DeviceNotFound,
    TransferFailed,
}

/// The sessions and devices of the cluster as seen from this device.
pub struct CrossDeviceBus {
    pub this_device: Option<DeviceInfo>,
    /// Known devices, by node id.
    pub devices: IdTable<DeviceInfo>,
    pub sessions: Vec<CrossSession>,
    pub clipboard: ClipboardContent,
    pub events: Vec<PresenceEvent>,
    /// The id the next session gets.
    pub next_session_id: u64,
    pub stats: CrossDeviceStats,
}

/// Whether no session in `s` has id `id`.
pub open spec fn no_session(s: Seq<CrossSession>, id: u64) -> bool {
    forall|i: int| 0 <= i < s.len() ==> (#[trigger] s[i]).id != id
}

/// The online devices of `s`, in order.
pub open spec fn online_of(s: Seq<([u8; 32], DeviceInfo)>) -> Seq<DeviceInfo>
    decreases s.len(),
{
    if s.len() == 0 {
        Seq::empty()
    } else {
        let rest = online_of(s.drop_last());
        if s.last().1.online { rest.push(s.last().1) } else { rest }
    }
}

/// The graph path of a handed-off session.
pub open spec fn session_path(id: u64) -> Seq<char> {
    "/sessions/"@ + dec_of(id as nat)
}

impl CrossDeviceBus {
    /// Every device is filed under its own node id.
    pub open spec fn wf(&self) -> bool {
        &&& self.devices.wf()
        &&& forall|k: Seq<u8>| #[trigger] self.devices.map().contains_key(k) ==> self.devices.map()[k].node_id@ == k
    }

    /// The id of this device, zeros before it is set.
    pub open spec fn own_id(&self) -> [u8; 32] {
        match self.this_device {
            Some(d) => d.node_id,
            None => zero_id(),
        }
    }

    /// An empty bus whose first session gets id 1.
    pub fn new() -> (b: CrossDeviceBus)
        ensures
            b.wf(),
            b.this_device.is_none(),
            b.devices@.len() == 0,
            b.sessions@.len() == 0,
            b.clipboard is Empty,
            b.events@.len() == 0,
            b.next_session_id == 1,
            b.stats == (CrossDeviceStats { devices_seen: 0, sessions_created: 0, handoffs_done: 0, clipboard_syncs: 0 }),
    {
        CrossDeviceBus {
            this_device: None,
            devices: IdTable::new(),
            sessions: Vec::new(),
            clipboard: ClipboardContent::Empty,
            events: Vec::new(),
            next_session_id: 1,
            stats: CrossDeviceStats { devices_seen: 0, sessions_created: 0, handoffs_done: 0, clipboard_syncs: 0 },
        }
    }

    /// Sets this device and files it among the devices.
    pub fn init(&mut self, node_id: [u8; 32], tick: u64)
        requires
            old(self).wf(),
        ensures
            final(self).wf(),
            final(self).this_device is Some,
            is_local_record(final(self).this_device->0, node_id, tick),
            final(self).devices.map() == old(self).devices.map().insert(node_id@, final(self).this_device->0),
            final(self).sessions == old(self).sessions,
            final(self).events == old(self).events,
            final(self).stats == old(self).stats,
            final(self).next_session_id == old(self).next_session_id,
    {
        let dev = DeviceInfo::this_device(node_id, tick);
        let copy = dev.duplicate();
        self.this_device = Some(dev);
        self.devices.upsert(node_id, copy);
    }

    /// Files a device of the cluster under its node id.
    pub fn register_device(&mut self, info: DeviceInfo)
        requires
            old(self).wf(),
            old(self).stats.devices_seen < usize::MAX,
        ensures
            final(self).wf(),
            final(self).devices.map() == old(self).devices.map().insert(info.node_id@, info),
            final(self).stats == (CrossDeviceStats { devices_seen: (old(self).stats.devices_seen + 1) as usize, ..old(self).stats }),
            final(self).this_device == old(self).this_device,
            final(self).sessions == old(self).sessions,
            final(self).events == old(self).events,
            final(self).next_session_id == old(self).next_session_id,
    {
        self.devices.upsert(info.node_id, info);
        self.stats.devices_seen = self.stats.devices_seen + 1;
    }

    /// Opens a session of `app` on this device; returns its id.
    pub fn create_session(&mut self, app: &str, payload: Vec<u8>, tick: u64) -> (id: u64)
        requires
            old(self).next_session_id < u64::MAX,
            old(self).stats.sessions_created < usize::MAX,
        ensures
            id == old(self).next_session_id,
            final(self).next_session_id == old(self).next_session_id + 1,
            final(self).sessions@.len() == old(self).sessions@.len() + 1,
            final(self).sessions@.drop_last() == old(self).sessions@,
            ({
                let s = final(self).sessions@.last();
                &&& s.id == id && s.app_name@ == app@ && s.state == SessionState::Active
                &&& s.origin == old(self).own_id() && s.current == old(self).own_id()
                &&& s.payload == payload && s.created_at == tick && s.transferred_at.is_none()
            }),
            final(self).stats == (CrossDeviceStats { sessions_created: (old(self).stats.sessions_created + 1) as usize, ..old(self).stats }),
            final(self).devices == old(self).devices,
            final(self).this_device == old(self).this_device,
            final(self).events == old(self).events,
    {
        let node_id = match &self.this_device {
            Some(d) => d.node_id,
            None => [0u8, 0, 0, 0, 0, 0, 0, 0, 0, 0, 0, 0, 0, 0, 0, 0, 0, 0, 0, 0, 0, 0, 0, 0, 0, 0, 0, 0, 0, 0, 0, 0],
        };
        let id = self.next_session_id;
        self.next_session_id = self.next_session_id + 1;
        let session = CrossSession::new(id, app, node_id, payload, tick);
        self.sessions.push(session);
        assert(self.sessions@.drop_last() =~= old(self).sessions@);
        self.stats.sessions_created = self.stats.sessions_created + 1;
        id
    }

    /// Moves session `session_id` to device `target`: the session's state goes
    /// into the graph under "/sessions/<id>", the move is reported, and the
    /// session resumes on the target. Fails, changing nothing, when no session
    /// has that id or the target is not a known device.
    pub fn handoff(&mut self, engine: &mut SyncEngine, session_id: u64, target: [u8; 32], tick: u64) -> (r: Result<(), HandoffError>)
        requires
            old(self).wf(),
            old(self).stats.handoffs_done < usize::MAX,
            old(engine).dag_view().wf(),
            counters_below_max(old(engine).dag_view().counters()),
            old(engine).dag_view().seq_no() < u64::MAX,
        ensures
            final(self).wf(),
            final(self).devices == old(self).devices,
            final(self).this_device == old(self).this_device,
            final(self).next_session_id == old(self).next_session_id,
            r == Err::<(), HandoffError>(HandoffError::SessionNotFound) <==> no_session(old(self).sessions@, session_id),
            r == Err::<(), HandoffError>(HandoffError::DeviceNotFound) <==> !no_session(old(self).sessions@, session_id)
                && !old(self).devices.map().contains_key(target@),
            r is Err ==> final(self).sessions == old(self).sessions && final(self).events == old(self).events
                && final(self).stats == old(self).stats && *final(engine) == *old(engine),
            r is Ok ==> exists|i: int| {
                &&& 0 <= i < old(self).sessions@.len()
                &&& #[trigger] old(self).sessions@[i].id == session_id
                &&& no_session(old(self).sessions@.subrange(0, i), session_id)
                &&& final(self).sessions@ == old(self).sessions@.update(i, handed_off(old(self).sessions@[i], target, tick))
                &&& final(self).events@ == old(self).events@.push(PresenceEvent::SessionHandoff {
                    session_id,
                    from: old(self).sessions@[i].current,
                    to: target,
                })
                &&& exists|h: Seq<u8>| {
                    &&& file_written(old(engine).dag_view(), final(engine).dag_view(), session_path(session_id),
                        old(self).sessions@[i].payload@, tick, h)
                    &&& final(engine).pending() == old(engine).pending().push(h)
                }
            },
            r is Ok ==> final(self).stats == (CrossDeviceStats { handoffs_done: (old(self).stats.handoffs_done + 1) as usize, ..old(self).stats }),
    {
        let mut i: usize = 0;
        while i < self.sessions.len() && self.sessions[i].id != session_id
            invariant
                i <= self.sessions@.len(),
                no_session(self.sessions@.subrange(0, i as int), session_id),
            decreases self.sessions@.len() - i,
        {
            assert(self.sessions@.subrange(0, i + 1) =~= self.sessions@.subrange(0, i as int).push(self.sessions@[i as int]));
            i = i + 1;
        }
        if i == self.sessions.len() {
            assert(self.sessions@.subrange(0, i as int) =~= self.sessions@);
            return Err(HandoffError::SessionNotFound);
        }
        if !self.devices.contains(&target) {
            proof {
                assert(!no_session(self.sessions@, session_id)) by {
                    assert(self.sessions@[i as int].id == session_id);
                }
            }
            return Err(HandoffError::DeviceNotFound);
        }
        let ghost s0 = self.sessions@;
        let mut session = self.sessions.remove(i);
        let from = session.current;
        session.state = SessionState::Transferring;
        session.current = target;
        session.transferred_at = Some(tick);
        let mut key = String::from_str("/sessions/");
        push_dec(&mut key, session_id);
        proof {
            reveal_strlit("/sessions/");
        }
        let data = copy_bytes(session.payload.as_slice());
        let _h = engine.write(key.as_str(), data, tick);
        self.events.push(PresenceEvent::SessionHandoff { session_id, from, to: target });
        self.stats.handoffs_done = self.stats.handoffs_done + 1;
        session.state = SessionState::Resumed;
        self.sessions.insert(i, session);
        proof {
            assert(self.sessions@ =~= s0.update(i as int, handed_off(s0[i as int], target, tick)));
            assert(!no_session(s0, session_id)) by {
                assert(s0[i as int].id == session_id);
            }
        }
        Ok(())
    }

    /// Puts `content` on the shared clipboard; its bytes go into the graph under
    /// "/clipboard/latest" and the copy is reported.
    pub fn clipboard_copy(&mut self, engine: &mut SyncEngine, content: ClipboardContent, tick: u64)
        requires
            old(self).stats.clipboard_syncs < usize::MAX,
            old(engine).dag_view().wf(),
            counters_below_max(old(engine).dag_view().counters()),
            old(engine).dag_view().seq_no() < u64::MAX,
        ensures
            final(self).clipboard == content,
            final(self).events@ == old(self).events@.push(PresenceEvent::ClipboardSync { from: old(self).own_id() }),
            final(self).stats == (CrossDeviceStats { clipboard_syncs: (old(self).stats.clipboard_syncs + 1) as usize, ..old(self).stats }),
            final(self).devices == old(self).devices,
            final(self).sessions == old(self).sessions,
            final(self).this_device == old(self).this_device,
            final(self).next_session_id == old(self).next_session_id,
            exists|h: Seq<u8>| {
                &&& file_written(old(engine).dag_view(), final(engine).dag_view(), "/clipboard/latest"@,
                    clip_bytes(content), tick, h)
                &&& final(engine).pending() == old(engine).pending().push(h)
            },
    {
        let node_id = match &self.this_device {
            Some(d) => d.node_id,
            None => [0u8, 0, 0, 0, 0, 0, 0, 0, 0, 0, 0, 0, 0, 0, 0, 0, 0, 0, 0, 0, 0, 0, 0, 0, 0, 0, 0, 0, 0, 0, 0, 0],
        };
        let data = content.to_bytes();
        let _h = engine.write("/clipboard/latest", data, tick);
        self.clipboard = content;
        self.events.push(PresenceEvent::ClipboardSync { from: node_id });
        self.stats.clipboard_syncs = self.stats.clipboard_syncs + 1;
    }

    /// The online devices, in node-id order.
    pub fn online_devices(&self) -> (v: Vec<&DeviceInfo>)
        ensures
            v@.map_values(|r: &DeviceInfo| *r) == online_of(self.devices@),
    {
        let mut v: Vec<&DeviceInfo> = Vec::new();
        let mut i: usize = 0;
        while i < self.devices.len()
            invariant
                i <= self.devices@.len(),
                v@.map_values(|r: &DeviceInfo| *r) == online_of(self.devices@.subrange(0, i as int)),
            decreases self.devices@.len() - i,
        {
            let e = self.devices.entry(i);
            proof {
                assert(self.devices@.subrange(0, i + 1).drop_last() =~= self.devices@.subrange(0, i as int));
            }
            let ghost before = v@.map_values(|r: &DeviceInfo| *r);
            if e.1.online {
                v.push(&e.1);
                assert(v@.map_values(|r: &DeviceInfo| *r) =~= before.push(e.1));
            }
            i = i + 1;
        }
        assert(self.devices@.subrange(0, i as int) =~= self.devices@);
        v
    }

    /// Files four simulated peers: a phone, a tablet, AR glasses and a server,
    /// online at `tick` with 85% battery, 10% load and 512 MB free.
    pub fn simulate_cluster(&mut self, tick: u64)
        requires
            old(self).wf(),
            old(self).stats.devices_seen + 4 <= usize::MAX,
        ensures
            final(self).wf(),
            final(self).stats == (CrossDeviceStats { devices_seen: (old(self).stats.devices_seen + 4) as usize, ..old(self).stats }),
            final(self).devices.map().dom() == old(self).devices.map().dom().insert(sim_id(1, 0x0a)@)
                .insert(sim_id(2, 0x0b)@).insert(sim_id(3, 0x0c)@).insert(sim_id(4, 0x0d)@),
            forall|k: Seq<u8>| #[trigger] old(self).devices.map().contains_key(k) && k != sim_id(1, 0x0a)@
                && k != sim_id(2, 0x0b)@ && k != sim_id(3, 0x0c)@ && k != sim_id(4, 0x0d)@
                ==> final(self).devices.map()[k] == old(self).devices.map()[k],
            is_sim_device(final(self).devices.map()[sim_id(1, 0x0a)@], sim_id(1, 0x0a), "socd-phone"@, DeviceKind::Mobile, [10u8, 0u8, 2u8, 16u8], tick),
            is_sim_device(final(self).devices.map()[sim_id(2, 0x0b)@], sim_id(2, 0x0b), "socd-tablet"@, DeviceKind::Tablet, [10u8, 0u8, 2u8, 17u8], tick),
            is_sim_device(final(self).devices.map()[sim_id(3, 0x0c)@], sim_id(3, 0x0c), "socd-ar"@, DeviceKind::ArGlasses, [10u8, 0u8, 2u8, 18u8], tick),
            is_sim_device(final(self).devices.map()[sim_id(4, 0x0d)@], sim_id(4, 0x0d), "socd-server"@, DeviceKind::Server, [10u8, 0u8, 2u8, 20u8], tick),
            final(self).sessions == old(self).sessions,
            final(self).events == old(self).events,
            final(self).this_device == old(self).this_device,
            final(self).next_session_id == old(self).next_session_id,
    {
        let ghost m0 = self.devices.map();
        let a: [u8; 32] = [1, 0x0a, 0, 0, 0, 0, 0, 0, 0, 0, 0, 0, 0, 0, 0, 0, 0, 0, 0, 0, 0, 0, 0, 0, 0, 0, 0, 0, 0, 0, 0, 0];
        let b: [u8; 32] = [2, 0x0b, 0, 0, 0, 0, 0, 0, 0, 0, 0, 0, 0, 0, 0, 0, 0, 0, 0, 0, 0, 0, 0, 0, 0, 0, 0, 0, 0, 0, 0, 0];
        let c: [u8; 32] = [3, 0x0c, 0, 0, 0, 0, 0, 0, 0, 0, 0, 0, 0, 0, 0, 0, 0, 0, 0, 0, 0, 0, 0, 0, 0, 0, 0, 0, 0, 0, 0, 0];
        let d: [u8; 32] = [4, 0x0d, 0, 0, 0, 0, 0, 0, 0, 0, 0, 0, 0, 0, 0, 0, 0, 0, 0, 0, 0, 0, 0, 0, 0, 0, 0, 0, 0, 0, 0, 0];
        assert(a == sim_id(1, 0x0a) && b == sim_id(2, 0x0b) && c == sim_id(3, 0x0c) && d == sim_id(4, 0x0d));
        assert(a@ != b@ && a@ != c@ && a@ != d@ && b@ != c@ && b@ != d@ && c@ != d@) by {
            assert(a@[0] != b@[0] && a@[0] != c@[0] && a@[0] != d@[0] && b@[0] != c@[0] && b@[0] != d@[0] && c@[0] != d@[0]);
        }
        self.register_device(make_sim(a, "socd-phone", DeviceKind::Mobile, [10, 0, 2, 16], tick));
        self.register_device(make_sim(b, "socd-tablet", DeviceKind::Tablet, [10, 0, 2, 17], tick));
        self.register_device(make_sim(c, "socd-ar", DeviceKind::ArGlasses, [10, 0, 2, 18], tick));
        self.register_device(make_sim(d, "socd-server", DeviceKind::Server, [10, 0, 2, 20], tick));
        assert(self.devices.map().dom() =~= m0.dom().insert(a@).insert(b@).insert(c@).insert(d@));
    }
}

/// `d` is this machine's record for `node_id` at `tick`, as `this_device` makes it.
pub open spec fn is_local_record(d: DeviceInfo, node_id: [u8; 32], tick: u64) -> bool {
    &&& d.node_id == node_id && d.name@ == "socd-node"@ && d.kind == DeviceKind::Desktop
    &&& d.online && d.last_seen == tick && d.battery.is_none() && d.cpu_load == 0
    &&& d.ram_free_mb == 256 && d.local_ip == [10u8, 0u8, 2u8, 15u8]
}

/// The all-zero node id.
pub open spec fn zero_id() -> [u8; 32] {
    [0u8, 0u8, 0u8, 0u8, 0u8, 0u8, 0u8, 0u8, 0u8, 0u8, 0u8, 0u8, 0u8, 0u8, 0u8, 0u8,
     0u8, 0u8, 0u8, 0u8, 0u8, 0u8, 0u8, 0u8, 0u8, 0u8, 0u8, 0u8, 0u8, 0u8, 0u8, 0u8]
}

/// The node id of simulated peer number `a`.
pub open spec fn sim_id(a: u8, b: u8) -> [u8; 32] {
    [a, b, 0u8, 0u8, 0u8, 0u8, 0u8, 0u8, 0u8, 0u8, 0u8, 0u8, 0u8, 0u8, 0u8, 0u8,
     0u8, 0u8, 0u8, 0u8, 0u8, 0u8, 0u8, 0u8, 0u8, 0u8, 0u8, 0u8, 0u8, 0u8, 0u8, 0u8]
}

/// `d` is a simulated peer: online at `tick` with 85% battery, 10% load and 512 MB free.
pub open spec fn is_sim_device(d: DeviceInfo, id: [u8; 32], name: Seq<char>, kind: DeviceKind, ip: [u8; 4], tick: u64) -> bool {
    &&& d.node_id == id && d.name@ == name && d.kind == kind && d.online && d.last_seen == tick
    &&& d.battery == Some(85u8) && d.cpu_load == 10 && d.ram_free_mb == 512 && d.local_ip == ip
}

/// A simulated peer's record.
fn make_sim(id: [u8; 32], name: &str, kind: DeviceKind, ip: [u8; 4], tick: u64) -> (d: DeviceInfo)
    ensures
        is_sim_device(d, id, name@, kind, ip, tick),
{
    DeviceInfo {
        node_id: id,
        name: String::from_str(name),
        kind,
        online: true,
        last_seen: tick,
        battery: Some(85),
        cpu_load: 10,
        ram_free_mb: 512,
        local_ip: ip,
    }
}

/// Sets this device on the bus.
pub fn init(bus: &mut CrossDeviceBus, node_id: [u8; 32], tick: u64)
    requires
        old(bus).wf(),
    ensures
        final(bus).wf(),
        final(bus).this_device is Some,
        is_local_record(final(bus).this_device->0, node_id, tick),
        final(bus).devices.map() == old(bus).devices.map().insert(node_id@, final(bus).this_device->0),
        final(bus).sessions == old(bus).sessions,
        final(bus).stats == old(bus).stats,
{
    bus.init(node_id, tick);
}

/// Files a device of the cluster.
pub fn register_device(bus: &mut CrossDeviceBus, info: DeviceInfo)
    requires
        old(bus).wf(),
        old(bus).stats.devices_seen < usize::MAX,
    ensures
        final(bus).wf(),
        final(bus).devices.map() == old(bus).devices.map().insert(info.node_id@, info),
        final(bus).stats.devices_seen == old(bus).stats.devices_seen + 1,
        final(bus).sessions == old(bus).sessions,
{
    bus.register_device(info);
}

/// Opens a session of `app` on this device; returns its id.
pub fn create_session(bus: &mut CrossDeviceBus, app: &str, payload: Vec<u8>, tick: u64) -> (id: u64)
    requires
        old(bus).next_session_id < u64::MAX,
        old(bus).stats.sessions_created < usize::MAX,
    ensures
        id == old(bus).next_session_id,
        final(bus).next_session_id == old(bus).next_session_id + 1,
        final(bus).sessions@.drop_last() == old(bus).sessions@,
        final(bus).sessions@.len() == old(bus).sessions@.len() + 1,
        final(bus).sessions@.last().id == id && final(bus).sessions@.last().app_name@ == app@,
        final(bus).sessions@.last().payload == payload,
        final(bus).sessions@.last().current == old(bus).own_id(),
        final(bus).devices == old(bus).devices,
{
    bus.create_session(app, payload, tick)
}

/// Moves a session to another device; see `CrossDeviceBus::handoff`.
pub fn handoff(bus: &mut CrossDeviceBus, engine: &mut SyncEngine, session_id: u64, target: [u8; 32], tick: u64) -> (r: Result<(), HandoffError>)
    requires
        old(bus).wf(),
        old(bus).stats.handoffs_done < usize::MAX,
        old(engine).dag_view().wf(),
        counters_below_max(old(engine).dag_view().counters()),
        old(engine).dag_view().seq_no() < u64::MAX,
    ensures
        final(bus).wf(),
        r == Err::<(), HandoffError>(HandoffError::SessionNotFound) <==> no_session(old(bus).sessions@, session_id),
        r == Err::<(), HandoffError>(HandoffError::DeviceNotFound) <==> !no_session(old(bus).sessions@, session_id)
            && !old(bus).devices.map().contains_key(target@),
        r is Err ==> final(bus).sessions == old(bus).sessions && *final(engine) == *old(engine),
        r is Ok ==> exists|i: int| {
            &&& 0 <= i < old(bus).sessions@.len()
            &&& #[trigger] old(bus).sessions@[i].id == session_id
            &&& no_session(old(bus).sessions@.subrange(0, i), session_id)
            &&& final(bus).sessions@ == old(bus).sessions@.update(i, handed_off(old(bus).sessions@[i], target, tick))
            &&& exists|h: Seq<u8>| file_written(old(engine).dag_view(), final(engine).dag_view(),
                session_path(session_id), old(bus).sessions@[i].payload@, tick, h)
        },
{
    bus.handoff(engine, session_id, target, tick)
}

/// Puts `content` on the shared clipboard; see `CrossDeviceBus::clipboard_copy`.
pub fn clipboard_copy(bus: &mut CrossDeviceBus, engine: &mut SyncEngine, content: ClipboardContent, tick: u64)
    requires
        old(bus).stats.clipboard_syncs < usize::MAX,
        old(engine).dag_view().wf(),
        counters_below_max(old(engine).dag_view().counters()),
        old(engine).dag_view().seq_no() < u64::MAX,
    ensures
        final(bus).clipboard == content,
        final(bus).stats.clipboard_syncs == old(bus).stats.clipboard_syncs + 1,
        exists|h: Seq<u8>| file_written(old(engine).dag_view(), final(engine).dag_view(), "/clipboard/latest"@,
            clip_bytes(content), tick, h),
{
    bus.clipboard_copy(engine, content, tick);
}

/// Copies of the online devices, in node-id order.
pub fn online_devices(bus: &CrossDeviceBus) -> (v: Vec<DeviceInfo>)
    ensures
        v@ == online_of(bus.devices@),
{
    let refs = bus.online_devices();
    let mut v: Vec<DeviceInfo> = Vec::new();
    let mut i: usize = 0;
    while i < refs.len()
        invariant
            i <= refs@.len(),
            v@ == refs@.map_values(|r: &DeviceInfo| *r).subrange(0, i as int),
        decreases refs@.len() - i,
    {
        v.push(refs[i].duplicate());
        i = i + 1;
        assert(v@ =~= refs@.map_values(|r: &DeviceInfo| *r).subrange(0, i as int));
    }
    assert(refs@.map_values(|r: &DeviceInfo| *r).subrange(0, i as int) =~= refs@.map_values(|r: &DeviceInfo| *r));
    v
}

/// The bus's counts.
pub fn stats(bus: &CrossDeviceBus) -> (s: CrossDeviceStats)
    ensures
        s == bus.stats,
{
    bus.stats
}

} // verus!
