//! Devices that are connected, and the messages between them.

use crate::text;
use dashmap::DashMap;
use rand::Rng;
use vstd::prelude::*;
use vstd::string::*;

verus! {

/// A connected device.
#[derive(Debug, Clone)]
pub struct Device {
    /// The name under which it has registered.
    pub name: Option<String>,
    pub id: String,
    pub active: bool,
}

/// A connected device, with texts for its names.
#[verifier::ext_equal]
pub struct DeviceView {
    pub name: Option<Seq<char>>,
    pub id: Seq<char>,
    pub active: bool,
}

impl View for Device {
    type V = DeviceView;

    open spec fn view(&self) -> DeviceView {
        DeviceView {
            name: match self.name {
                Some(n) => Some(n@),
                None => None,
            },
            id: self.id@,
            active: self.active,
        }
    }
}

/// A device as the clients see it.
#[derive(Debug)]
pub struct ClientDevice {
    pub name: String,
    pub id: String,
    pub active: bool,
}

/// From where the next track is picked.
#[derive(Debug, Clone, Copy, PartialEq, Eq, Structural)]
pub enum ShuffleMode {
    Off,
    CurrentDir,
    CollectionWide,
    Global,
}

/// A message from a device; times are the bits of a number of seconds.
#[derive(Debug)]
#[allow(inconsistent_fields)]
pub enum MsgIn {
    RegisterDevice { name: String },
    MakeDeviceActive { device_id: String },
    PlayTrack { collection: usize, track_id: u32 },
    NextTrack { collection: usize },
    Pause {  },
    Resume {  },
    SwitchShuffle { mode: ShuffleMode },
    CurrentPos { collection: usize, track_id: u32, time: u32 },
    RewindTo { time: u32 },
    VolumeChange { value: u8 },
}

/// A message to devices; times are the bits of a number of seconds.
#[derive(Debug)]
#[allow(inconsistent_fields)]
pub enum MsgOut {
    RegisterDeviceEvent { device_id: String },
    DevicesOnlineEvent { devices: Vec<ClientDevice> },
    MakeDeviceActiveEvent { device_id: String },
    PlayTrackEvent { collection: usize, track_id: u32 },
    NextTrackEvent { track: String },
    RewindTrackToTime {  },
    PauseEvent {  },
    ResumeEvent {  },
    SwitchShuffleEvent { mode: ShuffleMode },
    CurrentPosEvent { collection: usize, track_id: u32, time: u32 },
    RewindToEvent { time: u32 },
    VolumeChangeEvent { value: u8 },
}

/// Something to be sent.
#[derive(Debug)]
#[allow(inconsistent_fields)]
pub enum Outgoing {
    /// A message to the device at an address.
    To { addr: String, msg: MsgOut },
    /// A message to all devices but the one at the given address.
    All { msg: MsgOut, excluding: Option<String> },
    /// The list of devices to all devices.
    DeviceList,
}

/// A message, with texts for its names; the list of devices is left out.
#[allow(inconsistent_fields)]
pub enum MsgView {
    RegisterDeviceEvent { device_id: Seq<char> },
    DevicesOnlineEvent,
    MakeDeviceActiveEvent { device_id: Seq<char> },
    PlayTrackEvent { collection: usize, track_id: u32 },
    NextTrackEvent { track: Seq<char> },
    RewindTrackToTime,
    PauseEvent,
    ResumeEvent,
    SwitchShuffleEvent { mode: ShuffleMode },
    CurrentPosEvent { collection: usize, track_id: u32, time: u32 },
    RewindToEvent { time: u32 },
    VolumeChangeEvent { value: u8 },
}

impl View for MsgOut {
    type V = MsgView;

    open spec fn view(&self) -> MsgView {
        match self {
            MsgOut::RegisterDeviceEvent { device_id } => MsgView::RegisterDeviceEvent {
                device_id: device_id@,
            },
            MsgOut::DevicesOnlineEvent { devices } => MsgView::DevicesOnlineEvent,
            MsgOut::MakeDeviceActiveEvent { device_id } => MsgView::MakeDeviceActiveEvent {
                device_id: device_id@,
            },
            MsgOut::PlayTrackEvent { collection, track_id } => MsgView::PlayTrackEvent {
                collection: *collection,
                track_id: *track_id,
            },
            MsgOut::NextTrackEvent { track } => MsgView::NextTrackEvent { track: track@ },
            MsgOut::RewindTrackToTime {  } => MsgView::RewindTrackToTime,
            MsgOut::PauseEvent {  } => MsgView::PauseEvent,
            MsgOut::ResumeEvent {  } => MsgView::ResumeEvent,
            MsgOut::SwitchShuffleEvent { mode } => MsgView::SwitchShuffleEvent { mode: *mode },
            MsgOut::CurrentPosEvent { collection, track_id, time } => MsgView::CurrentPosEvent {
                collection: *collection,
                track_id: *track_id,
                time: *time,
            },
            MsgOut::RewindToEvent { time } => MsgView::RewindToEvent { time: *time },
            MsgOut::VolumeChangeEvent { value } => MsgView::VolumeChangeEvent { value: *value },
        }
    }
}

/// Something to be sent, with texts for its names.
#[allow(inconsistent_fields)]
pub enum OutView {
    To { addr: Seq<char>, msg: MsgView },
    All { msg: MsgView, excluding: Option<Seq<char>> },
    DeviceList,
}

impl View for Outgoing {
    type V = OutView;

    open spec fn view(&self) -> OutView {
        match self {
            Outgoing::To { addr, msg } => OutView::To { addr: addr@, msg: msg@ },
            Outgoing::All { msg, excluding } => OutView::All {
                msg: msg@,
                excluding: match excluding {
                    Some(a) => Some(a@),
                    None => None,
                },
            },
            Outgoing::DeviceList => OutView::DeviceList,
        }
    }
}

/// The views of a list of things to be sent.
pub open spec fn out_views(v: Seq<Outgoing>) -> Seq<OutView> {
    v.map_values(|o: Outgoing| o@)
}

/// The devices that a map holds, by their addresses.
pub uninterp spec fn device_entries(m: DashMap<String, Device>) -> Map<Seq<char>, DeviceView>;

/// `DashMap::new`: a map without entries.
#[verifier::external_body]
fn new_device_map() -> (r: DashMap<String, Device>)
    ensures
        device_entries(r) =~= map![],
{
    DashMap::new()
}

/// `DashMap::insert`: the device is put under the address.
#[verifier::external_body]
fn put_device(m: &mut DashMap<String, Device>, addr: String, d: Device)
    ensures
        device_entries(*final(m)) == device_entries(*old(m)).insert(addr@, d@),
{
    m.insert(addr, d);
}

/// `DashMap::remove`: the device under the address is taken out, if there is one.
#[verifier::external_body]
fn take_device(m: &mut DashMap<String, Device>, addr: &str)
    ensures
        device_entries(*final(m)) == device_entries(*old(m)).remove(addr@),
{
    m.remove(addr);
}

/// `DashMap::get`: the device under the address, copied, if there is one.
#[verifier::external_body]
fn device_at(m: &DashMap<String, Device>, addr: &str) -> (r: Option<Device>)
    ensures
        match r {
            Some(d) => device_entries(*m).contains_key(addr@) && device_entries(*m)[addr@] == d@,
            None => !device_entries(*m).contains_key(addr@),
        },
{
    m.get(addr).map(|d| d.value().clone())
}

/// `DashMap::get_mut`: the device under the address is replaced, if there is one.
#[verifier::external_body]
fn change_device(m: &mut DashMap<String, Device>, addr: &str, d: Device) -> (r: bool)
    ensures
        r == device_entries(*old(m)).contains_key(addr@),
        device_entries(*final(m)) == if r {
            device_entries(*old(m)).insert(addr@, d@)
        } else {
            device_entries(*old(m))
        },
{
    m.get_mut(addr).map(|mut entry| *entry = d).is_some()
}

/// `DashMap::len`: the number of devices.
#[verifier::external_body]
fn count_devices(m: &DashMap<String, Device>) -> (n: usize)
    ensures
        n == device_entries(*m).dom().len(),
{
    m.len()
}

/// The list holds every entry of the map once, in any order.
pub open spec fn lists_entries(v: Seq<(String, Device)>, m: Map<Seq<char>, DeviceView>) -> bool {
    &&& forall|i: int|
        0 <= i < v.len() ==> m.contains_key((#[trigger] v[i]).0@) && m[v[i].0@] == v[i].1@
    &&& forall|k: Seq<char>| #[trigger]
        m.contains_key(k) ==> exists|i: int| 0 <= i < v.len() && (#[trigger] v[i]).0@ == k
    &&& forall|i: int, j: int|
        0 <= i < j < v.len() ==> (#[trigger] v[i]).0@ != (#[trigger] v[j]).0@
}

/// `DashMap::iter`: all addresses and devices, copied, each once. Their order is left open.
#[verifier::external_body]
fn all_devices(m: &DashMap<String, Device>) -> (r: Vec<(String, Device)>)
    ensures
        lists_entries(r@, device_entries(*m)),
{
    m.iter().map(|e| (e.key().clone(), e.value().clone())).collect()
}

/// `rand::Rng::gen_range` on the numbers below `n`. Which one it gives is left to chance.
#[verifier::external_body]
fn random_below(n: usize) -> (r: usize)
    requires
        n > 0,
    ensures
        r < n,
{
    rand::thread_rng().gen_range(0..n)
}

/// A number below `n` that was left to chance.
pub closed spec fn is_drawn(r: usize, n: usize) -> bool {
    call_ensures(random_below, (n,), r)
}

/// A digit of a hexadecimal number in small letters.
pub open spec fn is_hex_digit(c: char) -> bool {
    '0' <= c <= '9' || 'a' <= c <= 'f'
}

/// The form of the identifier of a device: 32 hexadecimal digits in five groups with hyphens
/// between them, of which one tells that they are random and one starts with the bits of the
/// variant.
pub open spec fn is_device_id(s: Seq<char>) -> bool {
    &&& s.len() == 36
    &&& forall|i: int|
        0 <= i < 36 ==> if i == 8 || i == 13 || i == 18 || i == 23 {
            #[trigger] s[i] == '-'
        } else {
            is_hex_digit(s[i])
        }
    &&& s[14] == '4'
    &&& s[19] == '8' || s[19] == '9' || s[19] == 'a' || s[19] == 'b'
}

/// `uuid::Uuid::new_v4`, written out in its hyphenated form with small letters. Which one it gives
/// is left to chance.
#[verifier::external_body]
fn new_device_id() -> (r: String)
    ensures
        is_device_id(r@),
{
    uuid::Uuid::new_v4().to_string()
}

/// An identifier that was left to chance.
pub closed spec fn is_fresh_id(s: Seq<char>) -> bool {
    exists|id: String| #[trigger] call_ensures(new_device_id, (), id) && id@ == s
}

/// The connected devices and the mode in which tracks are picked.
pub struct Devices {
    map: DashMap<String, Device>,
    shuffle_mode: ShuffleMode,
}

/// The connected devices, by their addresses, and the mode in which tracks are picked.
#[verifier::ext_equal]
pub struct DevicesView {
    pub map: Map<Seq<char>, DeviceView>,
    pub shuffle_mode: ShuffleMode,
}

impl View for Devices {
    type V = DevicesView;

    closed spec fn view(&self) -> DevicesView {
        DevicesView { map: device_entries(self.map), shuffle_mode: self.shuffle_mode }
    }
}

/// What is left to chance in the handling of a message: the number that was drawn, and which
/// device of an identifier is taken.
pub struct Choice {
    pub drawn: usize,
    pub key: Seq<char>,
}

/// Whether a message makes a track be picked at random.
pub open spec fn picks_track(v: DevicesView, msg: MsgIn) -> bool {
    msg is NextTrack && (v.shuffle_mode is CollectionWide || v.shuffle_mode is CurrentDir)
}

/// The low 32 bits of a number.
pub open spec fn low_bits(n: usize) -> u32 {
    (n as u64 % 0x1_0000_0000) as u32
}

/// A message can be handled: a device that registers is connected, one that becomes active is
/// there, and a track is picked of at least one.
pub open spec fn can_handle(v: DevicesView, msg: MsgIn, addr: Seq<char>, tracks: usize) -> bool {
    &&& msg is RegisterDevice ==> v.map.contains_key(addr)
    &&& msg matches MsgIn::MakeDeviceActive { device_id } ==> exists|k: Seq<char>| #[trigger]
        v.map.contains_key(k) && v.map[k].id == device_id@
    &&& picks_track(v, msg) ==> tracks > 0
}

/// What may be left to chance.
pub open spec fn is_possible(v: DevicesView, msg: MsgIn, tracks: usize, c: Choice) -> bool {
    &&& msg matches MsgIn::MakeDeviceActive { device_id } ==> v.map.contains_key(c.key)
        && v.map[c.key].id == device_id@
    &&& picks_track(v, msg) ==> c.drawn < tracks
}

/// A message to all devices but its sender.
pub open spec fn to_others(msg: MsgView, addr: Seq<char>) -> Seq<OutView> {
    seq![OutView::All { msg, excluding: Some(addr) }]
}

/// A message to all devices.
pub open spec fn to_all(msg: MsgView) -> Seq<OutView> {
    seq![OutView::All { msg, excluding: None }]
}

/// The devices after a message.
pub open spec fn devices_after(v: DevicesView, msg: MsgIn, addr: Seq<char>, c: Choice) -> DevicesView {
    match msg {
        MsgIn::RegisterDevice { name } => DevicesView {
            map: v.map.insert(
                addr,
                DeviceView {
                    name: Some(name@),
                    active: v.map[addr].active || v.map.dom().len() == 1,
                    ..v.map[addr]
                },
            ),
            ..v
        },
        MsgIn::MakeDeviceActive { device_id } => DevicesView {
            map: v.map.insert(c.key, DeviceView { active: true, ..v.map[c.key] }),
            ..v
        },
        MsgIn::SwitchShuffle { mode } => DevicesView { shuffle_mode: mode, ..v },
        _ => v,
    }
}

/// What is sent in answer to a message.
pub open spec fn sent_after(v: DevicesView, msg: MsgIn, addr: Seq<char>, c: Choice) -> Seq<OutView> {
    match msg {
        MsgIn::RegisterDevice { name } => seq![
            OutView::To {
                addr,
                msg: MsgView::RegisterDeviceEvent { device_id: v.map[addr].id },
            },
            OutView::DeviceList,
        ],
        MsgIn::MakeDeviceActive { device_id } => to_all(
            MsgView::MakeDeviceActiveEvent { device_id: device_id@ },
        ),
        MsgIn::PlayTrack { collection, track_id } => to_all(
            MsgView::PlayTrackEvent { collection, track_id },
        ),
        MsgIn::NextTrack { collection } => if picks_track(v, msg) {
            to_all(MsgView::PlayTrackEvent { collection, track_id: low_bits(c.drawn) })
        } else {
            Seq::empty()
        },
        MsgIn::Pause {  } => to_others(MsgView::PauseEvent, addr),
        MsgIn::Resume {  } => to_others(MsgView::ResumeEvent, addr),
        MsgIn::SwitchShuffle { mode } => to_others(MsgView::SwitchShuffleEvent { mode }, addr),
        MsgIn::CurrentPos { collection, track_id, time } => to_others(
            MsgView::CurrentPosEvent { collection, track_id, time },
            addr,
        ),
        MsgIn::RewindTo { time } => to_others(MsgView::RewindToEvent { time }, addr),
        MsgIn::VolumeChange { value } => to_others(MsgView::VolumeChangeEvent { value }, addr),
    }
}

/// The addresses of the devices that a message to all goes to.
pub open spec fn reached(v: DevicesView, excluding: Option<Seq<char>>) -> Set<Seq<char>> {
    match excluding {
        Some(a) => v.map.dom().remove(a),
        None => v.map.dom(),
    }
}

/// No message makes a device come or go or change its identifier, and a device that is active
/// stays so.
pub proof fn messages_keep_devices(v: DevicesView, msg: MsgIn, addr: Seq<char>, tracks: usize, c: Choice)
    requires
        can_handle(v, msg, addr, tracks),
        is_possible(v, msg, tracks, c),
    ensures
        devices_after(v, msg, addr, c).map.dom() == v.map.dom(),
        forall|k: Seq<char>| #[trigger]
            v.map.contains_key(k) ==> devices_after(v, msg, addr, c).map[k].id == v.map[k].id && (
            v.map[k].active ==> devices_after(v, msg, addr, c).map[k].active),
{
    assert(devices_after(v, msg, addr, c).map.dom() =~= v.map.dom());
}

/// The only device becomes active when it registers.
pub proof fn single_device_becomes_active(v: DevicesView, name: String, addr: Seq<char>, c: Choice)
    requires
        v.map.contains_key(addr),
        v.map.dom().len() == 1,
    ensures
        devices_after(v, MsgIn::RegisterDevice { name }, addr, c).map[addr].active,
{
}

/// A message that tells the others what a device did does not go back to it.
pub proof fn sender_is_left_out(v: DevicesView, msg: MsgIn, addr: Seq<char>, c: Choice)
    requires
        msg is Pause || msg is Resume || msg is SwitchShuffle || msg is CurrentPos || msg
            is RewindTo || msg is VolumeChange,
    ensures
        forall|i: int|
            0 <= i < sent_after(v, msg, addr, c).len() ==> match #[trigger] sent_after(
                v,
                msg,
                addr,
                c,
            )[i] {
                OutView::All { msg, excluding } => !reached(v, excluding).contains(addr),
                _ => false,
            },
{
}

/// An event tells of what a message asks for, or tells that it was done: it is of the same kind and
/// has the same contents.
pub open spec fn tells(event: MsgOut, msg: MsgIn) -> bool {
    match msg {
        MsgIn::RegisterDevice { .. } => event is RegisterDeviceEvent,
        MsgIn::MakeDeviceActive { device_id } => match event {
            MsgOut::MakeDeviceActiveEvent { device_id: told } => told@ == device_id@,
            _ => false,
        },
        MsgIn::PlayTrack { collection, track_id } => match event {
            MsgOut::PlayTrackEvent { collection: c, track_id: t } => c == collection && t
                == track_id,
            _ => false,
        },
        MsgIn::NextTrack { collection } => match event {
            MsgOut::PlayTrackEvent { collection: c, track_id: _ } => c == collection,
            _ => false,
        },
        MsgIn::Pause {  } => event is PauseEvent,
        MsgIn::Resume {  } => event is ResumeEvent,
        MsgIn::SwitchShuffle { mode } => match event {
            MsgOut::SwitchShuffleEvent { mode: told } => told == mode,
            _ => false,
        },
        MsgIn::CurrentPos { collection, track_id, time } => match event {
            MsgOut::CurrentPosEvent { collection: c, track_id: t, time: at } => c == collection
                && t == track_id && at == time,
            _ => false,
        },
        MsgIn::RewindTo { time } => match event {
            MsgOut::RewindToEvent { time: at } => at == time,
            _ => false,
        },
        MsgIn::VolumeChange { value } => match event {
            MsgOut::VolumeChangeEvent { value: told } => told == value,
            _ => false,
        },
    }
}

/// Whether what a message tells is meant for the other devices alone.
pub open spec fn is_for_others(msg: MsgIn) -> bool {
    msg is Pause || msg is Resume || msg is SwitchShuffle || msg is CurrentPos || msg is RewindTo
        || msg is VolumeChange
}

/// What a device does is told to all others and not to itself, as the event of the same kind with
/// the same contents; so what two devices do is told alike only if they do the same.
pub proof fn others_are_told_what_a_device_did(
    v: DevicesView,
    msg: MsgIn,
    addr: Seq<char>,
    c: Choice,
    out: Seq<Outgoing>,
    other: MsgIn,
)
    requires
        out_views(out) == sent_after(v, msg, addr, c),
        is_for_others(msg),
        is_for_others(other),
    ensures
        out.len() == 1,
        match out[0] {
            Outgoing::All { msg: event, excluding: Some(a) } => {
                &&& a@ == addr
                &&& tells(event, msg)
                &&& tells(event, other) ==> other == msg
            },
            _ => false,
        },
{
    assert(out_views(out).len() == out.len());
    assert(out_views(out)[0] == out[0]@);
}

/// What concerns all devices is told to all, the sender included: the track that is played, be it
/// asked for or picked of those there are, and the device that has become active. No track is
/// picked where the mode is not to pick one of a folder or collection.
pub proof fn all_are_told_what_concerns_all(
    v: DevicesView,
    msg: MsgIn,
    addr: Seq<char>,
    tracks: usize,
    c: Choice,
    out: Seq<Outgoing>,
)
    requires
        out_views(out) == sent_after(v, msg, addr, c),
        is_possible(v, msg, tracks, c),
        msg is PlayTrack || msg is NextTrack || msg is MakeDeviceActive,
    ensures
        out.len() == 0 <==> msg is NextTrack && (v.shuffle_mode is Off || v.shuffle_mode is Global),
        out.len() <= 1,
        out.len() == 1 ==> match out[0] {
            Outgoing::All { msg: event, excluding: None } => {
                &&& tells(event, msg)
                &&& msg is NextTrack && tracks <= u32::MAX ==> match event {
                    MsgOut::PlayTrackEvent { collection: _, track_id } => track_id == c.drawn
                        && track_id < tracks,
                    _ => false,
                }
            },
            _ => false,
        },
{
    assert(out_views(out).len() == out.len());
    if out.len() > 0 {
        assert(out_views(out)[0] == out[0]@);
    }
}

/// A device that registers is told its identifier, alone, and then everyone gets the list of
/// devices.
pub proof fn registered_device_is_told_its_identifier(
    v: DevicesView,
    msg: MsgIn,
    addr: Seq<char>,
    c: Choice,
    out: Seq<Outgoing>,
)
    requires
        msg is RegisterDevice,
        out_views(out) == sent_after(v, msg, addr, c),
    ensures
        out.len() == 2,
        match out[0] {
            Outgoing::To { addr: a, msg: MsgOut::RegisterDeviceEvent { device_id } } => a@ == addr
                && device_id@ == v.map[addr].id,
            _ => false,
        },
        out[1] is DeviceList,
{
    assert(out_views(out).len() == out.len());
    assert(out_views(out)[0] == out[0]@);
    assert(out_views(out)[1] == out[1]@);
}

/// What a message changes: registering gives the sender its name, and makes it active if it is the
/// only device; making a device active changes that device only; and switching the mode changes
/// that alone. All other messages change nothing.
pub proof fn messages_change_what_they_say(
    v: DevicesView,
    msg: MsgIn,
    addr: Seq<char>,
    tracks: usize,
    c: Choice,
)
    requires
        can_handle(v, msg, addr, tracks),
        is_possible(v, msg, tracks, c),
    ensures
        ({
            let after = devices_after(v, msg, addr, c);
            match msg {
                MsgIn::RegisterDevice { name } => {
                    &&& after.map[addr].name == Some(name@)
                    &&& after.map[addr].active <==> v.map[addr].active || v.map.dom().len() == 1
                    &&& forall|o: Seq<char>|
                        o != addr && v.map.contains_key(o) ==> #[trigger] after.map[o] == v.map[o]
                    &&& after.shuffle_mode == v.shuffle_mode
                },
                MsgIn::MakeDeviceActive { device_id } => {
                    &&& v.map[c.key].id == device_id@
                    &&& after.map[c.key].active
                    &&& after.map[c.key].name == v.map[c.key].name
                    &&& forall|o: Seq<char>|
                        o != c.key && v.map.contains_key(o) ==> #[trigger] after.map[o] == v.map[o]
                    &&& after.shuffle_mode == v.shuffle_mode
                },
                MsgIn::SwitchShuffle { mode } => after.shuffle_mode == mode && after.map == v.map,
                _ => after == v,
            }
        }),
{
}

/// A message to all but one reaches every connected device but that one, and one to all reaches
/// every device.
pub proof fn messages_reach_connected_devices(
    v: DevicesView,
    excluding: Option<Seq<char>>,
    addr: Seq<char>,
)
    ensures
        reached(v, excluding).contains(addr) <==> v.map.contains_key(addr) && excluding != Some(
            addr,
        ),
{
}

/// Something that happens on the connection of a device.
#[derive(Debug)]
pub enum SocketEvent {
    /// A message came, or a text that is none.
    Text(Option<MsgIn>),
    /// Bytes came, which are not understood.
    Binary,
    /// A sign of life came.
    PingPong,
    /// The device closes the connection.
    Close,
    /// A raw frame came.
    Frame,
}

impl Devices {
    /// No devices, and tracks are not picked at random.
    pub fn new() -> (r: Self)
        ensures
            r@ == (DevicesView {
                map: Map::<Seq<char>, DeviceView>::empty(),
                shuffle_mode: ShuffleMode::Off,
            }),
    {
        Devices { map: new_device_map(), shuffle_mode: ShuffleMode::Off }
    }

    /// Puts a device that has just connected under its address.
    pub fn connect(&mut self, addr: String, id: String)
        ensures
            final(self)@.map.contains_key(addr@),
            final(self)@.map[addr@].id == id@,
            final(self)@.map[addr@].name is None,
            !final(self)@.map[addr@].active,
            forall|k: Seq<char>|
                k != addr@ ==> (#[trigger] final(self)@.map.contains_key(k)
                    <==> old(self)@.map.contains_key(k)) && final(self)@.map[k]
                    == old(self)@.map[k],
            final(self)@.shuffle_mode == old(self)@.shuffle_mode,
            final(self)@ == (DevicesView {
                map: old(self)@.map.insert(
                    addr@,
                    DeviceView { name: None, id: id@, active: false },
                ),
                ..old(self)@
            }),
    {
        put_device(&mut self.map, addr, Device { name: None, id, active: false });
        assert(self@.map == old(self)@.map.insert(
            addr@,
            DeviceView { name: None, id: id@, active: false },
        ));
    }

    /// Puts a device that has just connected under its address, with a new identifier.
    pub fn open_connection(&mut self, addr: String)
        ensures
            final(self)@.shuffle_mode == old(self)@.shuffle_mode,
            final(self)@.map.contains_key(addr@),
            is_device_id(final(self)@.map[addr@].id),
            is_fresh_id(final(self)@.map[addr@].id),
            final(self)@.map[addr@].name is None,
            !final(self)@.map[addr@].active,
            forall|k: Seq<char>|
                k != addr@ ==> (#[trigger] final(self)@.map.contains_key(k)
                    <==> old(self)@.map.contains_key(k)) && final(self)@.map[k]
                    == old(self)@.map[k],
            final(self)@.map == old(self)@.map.insert(
                addr@,
                DeviceView { name: None, id: final(self)@.map[addr@].id, active: false },
            ),
    {
        let id = new_device_id();
        self.connect(addr, id)
    }

    /// Whether there is a device with the given identifier.
    pub fn has_device_id(&self, device_id: &str) -> (r: bool)
        ensures
            r == exists|k: Seq<char>| #[trigger]
                self@.map.contains_key(k) && self@.map[k].id == device_id@,
    {
        let all = all_devices(&self.map);
        let mut i: usize = 0;
        while i < all.len()
            invariant
                i <= all.len(),
                lists_entries(all@, self@.map),
                forall|j: int| 0 <= j < i ==> (#[trigger] all@[j]).1.id@ != device_id@,
            decreases all.len() - i,
        {
            if text::same_text(all[i].1.id.as_str(), device_id) {
                assert(self@.map.contains_key(all@[i as int].0@));
                return true;
            }
            i += 1;
        }
        assert forall|k: Seq<char>| #[trigger] self@.map.contains_key(k) implies self@.map[k].id
            != device_id@ by {
            let j = choose|j: int| 0 <= j < all@.len() && (#[trigger] all@[j]).0@ == k;
            assert(all@[j].1.id@ != device_id@);
        }
        false
    }

    /// Whether a message can be handled, where there are as many tracks to pick from as given.
    pub fn can_process(&self, message: &MsgIn, addr: &str, tracks: usize) -> (r: bool)
        ensures
            r == can_handle(self@, *message, addr@, tracks),
    {
        match message {
            MsgIn::RegisterDevice { .. } => self.is_connected(addr),
            MsgIn::MakeDeviceActive { device_id } => self.has_device_id(device_id.as_str()),
            MsgIn::NextTrack { .. } => !self.picks_random_track(message) || tracks > 0,
            _ => true,
        }
    }

    /// The address of a device with the given identifier, which has to be there.
    pub fn find_device_key_by_id(&self, device_id: &str) -> (r: String)
        requires
            exists|k: Seq<char>| #[trigger]
                self@.map.contains_key(k) && self@.map[k].id == device_id@,
        ensures
            self@.map.contains_key(r@),
            self@.map[r@].id == device_id@,
    {
        let all = all_devices(&self.map);
        let ghost k = choose|k: Seq<char>| #[trigger]
            self@.map.contains_key(k) && self@.map[k].id == device_id@;
        let ghost w = choose|i: int| 0 <= i < all@.len() && (#[trigger] all@[i]).0@ == k;
        let mut i: usize = 0;
        while i < all.len()
            invariant
                i <= all.len(),
                lists_entries(all@, self@.map),
                0 <= w < all@.len(),
                all@[w].1.id@ == device_id@,
                i <= w,
            decreases all.len() - i,
        {
            if text::same_text(all[i].1.id.as_str(), device_id) {
                assert(self@.map.contains_key(all@[i as int].0@));
                return all[i].0.clone();
            }
            i += 1;
        }
        String::new()
    }

    /// Whether a message makes a track be picked at random.
    pub fn picks_random_track(&self, message: &MsgIn) -> (r: bool)
        ensures
            r == picks_track(self@, *message),
    {
        match message {
            MsgIn::NextTrack { .. } => match self.shuffle_mode {
                ShuffleMode::CollectionWide | ShuffleMode::CurrentDir => true,
                _ => false,
            },
            _ => false,
        }
    }

    /// Handles a message of a device, where chance has come out as given: `drawn` is the number
    /// of a picked track, and `key` the address of the device that becomes active.
    #[verifier::rlimit(40)]
    pub fn proceed_message(&mut self, message: MsgIn, addr: &str, drawn: usize, key: &str) -> (r: Vec<
        Outgoing,
    >)
        requires
            message is RegisterDevice ==> old(self)@.map.contains_key(addr@),
            message is MakeDeviceActive ==> old(self)@.map.contains_key(key@),
        ensures
            final(self)@ == devices_after(
                old(self)@,
                message,
                addr@,
                (Choice { drawn, key: key@ }),
            ),
            out_views(r@) == sent_after(
                old(self)@,
                message,
                addr@,
                (Choice { drawn, key: key@ }),
            ),
    {
        let ghost v = self@;
        let ghost c = Choice { drawn, key: key@ };
        let ghost want = sent_after(v, message, addr@, c);
        let picks = self.picks_random_track(&message);
        let mut out: Vec<Outgoing> = Vec::new();
        match message {
            MsgIn::RegisterDevice { name } => {
                let device_count = count_devices(&self.map);
                if let Some(device) = device_at(&self.map, addr) {
                    let mut device = device;
                    let device_id = device.id.clone();
                    device.name = Some(name);
                    if device_count == 1 {
                        device.active = true;
                    }
                    change_device(&mut self.map, addr, device);
                    out.push(
                        Outgoing::To {
                            addr: addr.to_owned(),
                            msg: MsgOut::RegisterDeviceEvent { device_id },
                        },
                    );
                    out.push(Outgoing::DeviceList);
                }
            },
            MsgIn::MakeDeviceActive { device_id } => {
                if let Some(device) = device_at(&self.map, key) {
                    let mut device = device;
                    device.active = true;
                    change_device(&mut self.map, key, device);
                }
                out.push(
                    Outgoing::All {
                        msg: MsgOut::MakeDeviceActiveEvent { device_id },
                        excluding: None,
                    },
                );
            },
            MsgIn::PlayTrack { collection, track_id } => {
                out.push(
                    Outgoing::All {
                        msg: MsgOut::PlayTrackEvent { collection, track_id },
                        excluding: None,
                    },
                );
            },
            MsgIn::NextTrack { collection } => {
                if picks {
                    let n = drawn as u64;
                    assert(n as u32 == (n % 0x1_0000_0000) as u32) by (bit_vector);
                    let track_id = #[verifier::truncate] (n as u32);
                    out.push(
                        Outgoing::All {
                            msg: MsgOut::PlayTrackEvent { collection, track_id },
                            excluding: None,
                        },
                    );
                }
            },
            MsgIn::Pause {  } => {
                out.push(
                    Outgoing::All { msg: MsgOut::PauseEvent {  }, excluding: Some(addr.to_owned()) },
                );
            },
            MsgIn::Resume {  } => {
                out.push(
                    Outgoing::All {
                        msg: MsgOut::ResumeEvent {  },
                        excluding: Some(addr.to_owned()),
                    },
                );
            },
            MsgIn::SwitchShuffle { mode } => {
                self.shuffle_mode = mode;
                out.push(
                    Outgoing::All {
                        msg: MsgOut::SwitchShuffleEvent { mode },
                        excluding: Some(addr.to_owned()),
                    },
                );
            },
            MsgIn::CurrentPos { collection, track_id, time } => {
                out.push(
                    Outgoing::All {
                        msg: MsgOut::CurrentPosEvent { collection, track_id, time },
                        excluding: Some(addr.to_owned()),
                    },
                );
            },
            MsgIn::RewindTo { time } => {
                out.push(
                    Outgoing::All {
                        msg: MsgOut::RewindToEvent { time },
                        excluding: Some(addr.to_owned()),
                    },
                );
            },
            MsgIn::VolumeChange { value } => {
                out.push(
                    Outgoing::All {
                        msg: MsgOut::VolumeChangeEvent { value },
                        excluding: Some(addr.to_owned()),
                    },
                );
            },
        }
        assert(self@ =~= devices_after(v, message, addr@, c));
        assert(out_views(out@) =~= want);
        out
    }

    /// Handles a message of a device: what is to be sent in answer. A text that is no message
    /// changes nothing and is not answered.
    pub fn process_message(&mut self, message: Option<MsgIn>, addr: &str, tracks: usize) -> (r: Vec<
        Outgoing,
    >)
        requires
            message is Some ==> can_handle(old(self)@, message->0, addr@, tracks),
        ensures
            match message {
                None => final(self)@ == old(self)@ && r@.len() == 0,
                Some(m) => exists|c: Choice|
                    {
                        &&& #[trigger] is_possible(old(self)@, m, tracks, c)
                        &&& picks_track(old(self)@, m) ==> is_drawn(c.drawn, tracks)
                        &&& final(self)@ == devices_after(old(self)@, m, addr@, c)
                        &&& out_views(r@) == sent_after(old(self)@, m, addr@, c)
                    },
            },
    {
        match message {
            None => Vec::new(),
            Some(m) => {
                let drawn = if self.picks_random_track(&m) {
                    random_below(tracks)
                } else {
                    0
                };
                let key = match &m {
                    MsgIn::MakeDeviceActive { device_id } => {
                        self.find_device_key_by_id(device_id.as_str())
                    },
                    _ => String::new(),
                };
                let ghost c = Choice { drawn, key: key@ };
                assert(is_possible(self@, m, tracks, c));
                self.proceed_message(m, addr, drawn, key.as_str())
            },
        }
    }

    /// Handles what happened on the connection of a device.
    pub fn handle_connection(&mut self, event: SocketEvent, addr: &str, tracks: usize) -> (r: Vec<
        Outgoing,
    >)
        requires
            event matches SocketEvent::Text(Some(m)) ==> can_handle(old(self)@, m, addr@, tracks),
        ensures
            match event {
                SocketEvent::Text(Some(m)) => exists|c: Choice|
                    {
                        &&& #[trigger] is_possible(old(self)@, m, tracks, c)
                        &&& picks_track(old(self)@, m) ==> is_drawn(c.drawn, tracks)
                        &&& final(self)@ == devices_after(old(self)@, m, addr@, c)
                        &&& out_views(r@) == sent_after(old(self)@, m, addr@, c)
                    },
                SocketEvent::Close => final(self)@ == (DevicesView {
                    map: old(self)@.map.remove(addr@),
                    ..old(self)@
                }) && out_views(r@) == seq![OutView::DeviceList],
                _ => final(self)@ == old(self)@ && r@.len() == 0,
            },
            event is Close ==> {
                &&& r@.len() == 1
                &&& r@[0] is DeviceList
                &&& !final(self)@.map.contains_key(addr@)
                &&& forall|k: Seq<char>|
                    k != addr@ ==> (#[trigger] final(self)@.map.contains_key(k)
                        <==> old(self)@.map.contains_key(k)) && (old(self)@.map.contains_key(k)
                        ==> final(self)@.map[k] == old(self)@.map[k])
                &&& final(self)@.shuffle_mode == old(self)@.shuffle_mode
            },
    {
        match event {
            SocketEvent::Text(message) => self.process_message(message, addr, tracks),
            SocketEvent::Close => {
                take_device(&mut self.map, addr);
                let mut out: Vec<Outgoing> = Vec::new();
                out.push(Outgoing::DeviceList);
                assert(out_views(out@) =~= seq![OutView::DeviceList]);
                assert(out_views(out@)[0] == out@[0]@);
                out
            },
            SocketEvent::Binary | SocketEvent::PingPong | SocketEvent::Frame => Vec::new(),
        }
    }

    /// Whether all devices have registered.
    pub fn all_registered(&self) -> (r: bool)
        ensures
            r == (forall|k: Seq<char>| #[trigger]
                self@.map.contains_key(k) ==> self@.map[k].name is Some),
    {
        let all = all_devices(&self.map);
        let mut i: usize = 0;
        while i < all.len()
            invariant
                i <= all.len(),
                lists_entries(all@, self@.map),
                forall|j: int| 0 <= j < i ==> (#[trigger] all@[j]).1.name is Some,
            decreases all.len() - i,
        {
            assert(self@.map.contains_key(all@[i as int].0@));
            if all[i].1.name.is_none() {
                return false;
            }
            i += 1;
        }
        assert forall|k: Seq<char>| #[trigger] self@.map.contains_key(k) implies self@.map[k].name
            is Some by {
            let j = choose|j: int| 0 <= j < all@.len() && (#[trigger] all@[j]).0@ == k;
            assert(all@[j].1.name is Some);
        }
        true
    }

    /// The list of all devices, which have to be registered, in any order.
    #[verifier::rlimit(40)]
    pub fn send_updated_device_list(&self) -> (r: Vec<ClientDevice>)
        requires
            forall|k: Seq<char>| #[trigger]
                self@.map.contains_key(k) ==> self@.map[k].name is Some,
        ensures
            exists|keys: Seq<Seq<char>>|
                {
                    &&& keys.len() == r@.len()
                    &&& #[trigger] keys.no_duplicates()
                    &&& keys.to_set() == self@.map.dom()
                    &&& forall|i: int|
                        0 <= i < r@.len() ==> (DeviceView {
                            name: Some((#[trigger] r@[i]).name@),
                            id: r@[i].id@,
                            active: r@[i].active,
                        }) == self@.map[keys[i]]
                },
    {
        let all = all_devices(&self.map);
        let ghost keys = Seq::new(all@.len(), |i: int| all@[i].0@);
        let mut out: Vec<ClientDevice> = Vec::new();
        let ghost entries = all@;
        proof {
            assert(keys.no_duplicates()) by {
                assert forall|i: int, j: int|
                    0 <= i < keys.len() && 0 <= j < keys.len() && i != j implies keys[i]
                    != keys[j] by {
                    if i < j {
                        assert(entries[i].0@ != entries[j].0@);
                    } else {
                        assert(entries[j].0@ != entries[i].0@);
                    }
                }
            }
            assert(keys.to_set() =~= self@.map.dom()) by {
                assert forall|k: Seq<char>| keys.to_set().contains(k) implies
                    self@.map.dom().contains(k) by {
                    let i = choose|i: int| 0 <= i < keys.len() && keys[i] == k;
                    assert(entries[i].0@ == k);
                }
                assert forall|k: Seq<char>| self@.map.dom().contains(k) implies
                    keys.to_set().contains(k) by {
                    assert(self@.map.contains_key(k));
                    let i = choose|i: int| 0 <= i < entries.len() && (#[trigger] entries[i]).0@ == k;
                    assert(keys[i] == k);
                }
            }
        }
        for e in it: all
            invariant
                it.seq() == entries,
                lists_entries(entries, self@.map),
                keys == Seq::new(entries.len(), |i: int| entries[i].0@),
                forall|k: Seq<char>| #[trigger]
                    self@.map.contains_key(k) ==> self@.map[k].name is Some,
                out@.len() == it.index(),
                forall|i: int|
                    0 <= i < out@.len() ==> (DeviceView {
                        name: Some((#[trigger] out@[i]).name@),
                        id: out@[i].id@,
                        active: out@[i].active,
                    }) == self@.map[keys[i]],
        {
            let (addr, d) = e;
            assert(self@.map.contains_key(addr@));
            let ghost dv = d@;
            if let Some(name) = d.name {
                out.push(ClientDevice { name, id: d.id, active: d.active });
                assert(self@.map[keys[out@.len() - 1]] == dv);
            }
        }
        assert(keys.no_duplicates());
        out
    }

    /// Whether there is a device at an address.
    pub fn is_connected(&self, addr: &str) -> (r: bool)
        ensures
            r == self@.map.contains_key(addr@),
    {
        device_at(&self.map, addr).is_some()
    }

    /// The addresses of the devices that a message to all goes to, in any order.
    #[verifier::rlimit(40)]
    pub fn send_to_all_devices_excluding(&self, device_to_exclude: Option<&str>) -> (r: Vec<String>)
        ensures
            r@.map_values(|s: String| s@).no_duplicates(),
            r@.map_values(|s: String| s@).to_set() == reached(
                self@,
                match device_to_exclude {
                    Some(a) => Some(a@),
                    None => None,
                },
            ),
    {
        let all = all_devices(&self.map);
        let ghost entries = all@;
        let ghost excluded = match device_to_exclude {
            Some(a) => Some(a@),
            None => None,
        };
        let mut out: Vec<String> = Vec::new();
        let ghost mut n: int = 0;
        for e in it: all
            invariant
                it.seq() == entries,
                n == it.index(),
                lists_entries(entries, self@.map),
                excluded == match device_to_exclude {
                    Some(a) => Some(a@),
                    None => None,
                },
                forall|i: int|
                    0 <= i < out@.len() ==> exists|j: int|
                        0 <= j < n && (#[trigger] entries[j]).0@ == (#[trigger] out@[i])@,
                forall|i: int| 0 <= i < out@.len() ==> excluded != Some((#[trigger] out@[i])@),
                forall|j: int|
                    0 <= j < n && excluded != Some((#[trigger] entries[j]).0@) ==> exists|i: int|
                        0 <= i < out@.len() && (#[trigger] out@[i])@ == entries[j].0@,
                forall|i: int, j: int|
                    0 <= i < j < out@.len() ==> (#[trigger] out@[i])@ != (#[trigger] out@[j])@,
        {
            let (addr, _) = e;
            let ghost before = out@;
            let skip = match device_to_exclude {
                Some(x) => text::same_text(addr.as_str(), x),
                None => false,
            };
            assert(entries[n].0@ == addr@);
            if !skip {
                assert forall|i: int| 0 <= i < before.len() implies (#[trigger] before[i])@
                    != addr@ by {
                    let j = choose|j: int| 0 <= j < n && (#[trigger] entries[j]).0@ == before[i]@;
                    assert(entries[j].0@ != entries[n].0@);
                }
                out.push(addr);
                assert(out@[before.len() as int]@ == entries[n].0@);
                assert forall|j: int|
                    0 <= j < n + 1 && excluded != Some((#[trigger] entries[j]).0@) implies exists|
                    i: int,
                |
                    0 <= i < out@.len() && (#[trigger] out@[i])@ == entries[j].0@ by {
                    if j < n {
                        let i = choose|i: int|
                            0 <= i < before.len() && (#[trigger] before[i])@ == entries[j].0@;
                        assert(out@[i] == before[i]);
                    }
                }
                assert forall|i: int| 0 <= i < out@.len() implies exists|j: int|
                    0 <= j < n + 1 && (#[trigger] entries[j]).0@ == (#[trigger] out@[i])@ by {
                    if i < before.len() {
                        assert(out@[i] == before[i]);
                        let j = choose|j: int|
                            0 <= j < n && (#[trigger] entries[j]).0@ == before[i]@;
                        assert(entries[j].0@ == out@[i]@);
                    }
                }
            }
            proof {
                n = n + 1;
            }
        }
        proof {
            let got = out@.map_values(|s: String| s@);
            let want = reached(self@, excluded);
            assert forall|k: Seq<char>| got.to_set().contains(k) implies want.contains(k) by {
                let i = choose|i: int| 0 <= i < got.len() && got[i] == k;
                assert(out@[i]@ == k);
                let j = choose|j: int| 0 <= j < n && (#[trigger] entries[j]).0@ == out@[i]@;
                assert(self@.map.contains_key(entries[j].0@));
            }
            assert forall|k: Seq<char>| want.contains(k) implies got.to_set().contains(k) by {
                assert(self@.map.contains_key(k));
                let j = choose|j: int| 0 <= j < entries.len() && (#[trigger] entries[j]).0@ == k;
                let i = choose|i: int| 0 <= i < out@.len() && (#[trigger] out@[i])@ == entries[j].0@;
                assert(got[i] == k);
            }
            assert(got.to_set() =~= want);
            assert(got.no_duplicates()) by {
                assert forall|i: int, j: int|
                    0 <= i < got.len() && 0 <= j < got.len() && i != j implies got[i] != got[j] by {
                    if i < j {
                        assert(out@[i]@ != out@[j]@);
                    } else {
                        assert(out@[j]@ != out@[i]@);
                    }
                }
            }
        }
        out
    }

    /// The addresses of all devices, in any order.
    pub fn send_to_all_devices(&self) -> (r: Vec<String>)
        ensures
            r@.map_values(|s: String| s@).no_duplicates(),
            r@.map_values(|s: String| s@).to_set() == self@.map.dom(),
    {
        self.send_to_all_devices_excluding(None)
    }

    /// Takes out the devices at the given addresses, which could not be reached.
    pub fn remove_devices(&mut self, to_remove: &Vec<String>)
        ensures
            final(self)@ == (DevicesView {
                map: old(self)@.map.remove_keys(
                    to_remove@.map_values(|s: String| s@).to_set(),
                ),
                ..old(self)@
            }),
            forall|k: Seq<char>| #[trigger]
                final(self)@.map.contains_key(k) <==> old(self)@.map.contains_key(k) && !(exists|
                    i: int,
                |
                    0 <= i < to_remove@.len() && (#[trigger] to_remove@[i])@ == k),
            forall|k: Seq<char>| #[trigger]
                final(self)@.map.contains_key(k) ==> final(self)@.map[k] == old(self)@.map[k],
    {
        let ghost all = to_remove@.map_values(|s: String| s@);
        let mut i: usize = 0;
        assert(self@.map =~= old(self)@.map.remove_keys(all.take(0).to_set()));
        while i < to_remove.len()
            invariant
                i <= to_remove.len(),
                all == to_remove@.map_values(|s: String| s@),
                self@.shuffle_mode == old(self)@.shuffle_mode,
                self@.map == old(self)@.map.remove_keys(all.take(i as int).to_set()),
            decreases to_remove.len() - i,
        {
            take_device(&mut self.map, to_remove[i].as_str());
            proof {
                let a = all.take(i as int);
                let b = all.take(i + 1);
                assert(b =~= a.push(all[i as int]));
                assert(b.to_set() =~= a.to_set().insert(all[i as int])) by {
                    assert forall|k: Seq<char>| a.to_set().insert(all[i as int]).contains(
                        k,
                    ) implies b.to_set().contains(k) by {
                        if k == all[i as int] {
                            assert(b[i as int] == k);
                        } else {
                            let j = choose|j: int| 0 <= j < a.len() && a[j] == k;
                            assert(b[j] == k);
                        }
                    }
                }
                assert(self@.map =~= old(self)@.map.remove_keys(b.to_set()));
            }
            i += 1;
        }
        assert(all.take(i as int) =~= all);
        proof {
            assert forall|k: Seq<char>| #[trigger] all.to_set().contains(k) <==> (exists|i: int|
                0 <= i < to_remove@.len() && (#[trigger] to_remove@[i])@ == k) by {
                if all.to_set().contains(k) {
                    let i = choose|i: int| 0 <= i < all.len() && all[i] == k;
                    assert(to_remove@[i]@ == k);
                }
                if exists|i: int| 0 <= i < to_remove@.len() && (#[trigger] to_remove@[i])@ == k {
                    let i = choose|i: int|
                        0 <= i < to_remove@.len() && (#[trigger] to_remove@[i])@ == k;
                    assert(all[i] == k);
                }
            }
        }
    }
}

/// A message can be handled unless it registers a device that is not connected, makes one active
/// that is not there, or makes a track be picked where there is none.
pub proof fn messages_fail_for_a_reason(v: DevicesView, msg: MsgIn, addr: Seq<char>, tracks: usize)
    ensures
        match msg {
            MsgIn::RegisterDevice { .. } => can_handle(v, msg, addr, tracks) <==> v.map.contains_key(
                addr,
            ),
            MsgIn::MakeDeviceActive { device_id } => can_handle(v, msg, addr, tracks) <==> exists|
                k: Seq<char>,
            | #[trigger] v.map.contains_key(k) && v.map[k].id == device_id@,
            MsgIn::NextTrack { .. } => can_handle(v, msg, addr, tracks) <==> v.shuffle_mode is Off
                || v.shuffle_mode is Global || tracks >= 1,
            _ => can_handle(v, msg, addr, tracks),
        },
{
}

/// The list of devices holds every connected device, as it is, and nothing else.
pub proof fn list_holds_all_devices(d: &Devices, r: Vec<ClientDevice>, k: Seq<char>, n: int)
    requires
        forall|o: Seq<char>| #[trigger] d@.map.contains_key(o) ==> d@.map[o].name is Some,
        call_ensures(Devices::send_updated_device_list, (d,), r),
    ensures
        d@.map.contains_key(k) ==> exists|i: int|
            0 <= i < r@.len() && (#[trigger] r@[i]).id@ == d@.map[k].id && Some(r@[i].name@)
                == d@.map[k].name && r@[i].active == d@.map[k].active,
        0 <= n < r@.len() ==> exists|o: Seq<char>| #[trigger]
            d@.map.contains_key(o) && r@[n].id@ == d@.map[o].id && Some(r@[n].name@)
                == d@.map[o].name && r@[n].active == d@.map[o].active,
{
    let keys = choose|keys: Seq<Seq<char>>|
        {
            &&& keys.len() == r@.len()
            &&& #[trigger] keys.no_duplicates()
            &&& keys.to_set() == d@.map.dom()
            &&& forall|i: int|
                0 <= i < r@.len() ==> (DeviceView {
                    name: Some((#[trigger] r@[i]).name@),
                    id: r@[i].id@,
                    active: r@[i].active,
                }) == d@.map[keys[i]]
        };
    if d@.map.contains_key(k) {
        assert(keys.to_set().contains(k));
        let i = choose|i: int| 0 <= i < keys.len() && keys[i] == k;
        let _ = r@[i];
        assert(r@[i].id@ == d@.map[k].id);
    }
    if 0 <= n < r@.len() {
        assert(keys.contains(keys[n]));
        assert(keys.to_set().contains(keys[n]));
        assert(d@.map.contains_key(keys[n]));
        let _ = r@[n];
    }
}

} // verus!
