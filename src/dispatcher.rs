//! Classifying daemon notifications into a closed set of events, and fanning
//! them out on bounded per-topic broadcast channels.

use vstd::prelude::*;
use crate::json::{flag_of, member, text_eq, text_of, text_or_empty, JsonValue};
use crate::protocol::{describes_device, device_from_json, Device};

verus! {

/// The notification names that the engine knows.
#[derive(Debug, Clone, Copy, PartialEq, Eq, Structural)]
pub enum EventTag {
    Connected,
    LogMessage,
    DeviceAdded,
    DeviceRemoved,
    AppStart,
    AppStarted,
    AppStop,
    AppLog,
    AppProgress,
    Unknown,
}

/// The tag of the notification named `name`.
pub open spec fn tag_of(name: Seq<char>) -> EventTag {
    if name == "daemon.connected"@ {
        EventTag::Connected
    } else if name == "daemon.logMessage"@ {
        EventTag::LogMessage
    } else if name == "device.added"@ {
        EventTag::DeviceAdded
    } else if name == "device.removed"@ {
        EventTag::DeviceRemoved
    } else if name == "app.start"@ {
        EventTag::AppStart
    } else if name == "app.started"@ {
        EventTag::AppStarted
    } else if name == "app.stop"@ {
        EventTag::AppStop
    } else if name == "app.log"@ {
        EventTag::AppLog
    } else if name == "app.progress"@ {
        EventTag::AppProgress
    } else {
        EventTag::Unknown
    }
}

/// The one place where notification names are read.
pub fn event_tag(name: &str) -> (r: EventTag)
    ensures
        r == tag_of(name@),
{
    if text_eq(name, "daemon.connected") {
        EventTag::Connected
    } else if text_eq(name, "daemon.logMessage") {
        EventTag::LogMessage
    } else if text_eq(name, "device.added") {
        EventTag::DeviceAdded
    } else if text_eq(name, "device.removed") {
        EventTag::DeviceRemoved
    } else if text_eq(name, "app.start") {
        EventTag::AppStart
    } else if text_eq(name, "app.started") {
        EventTag::AppStarted
    } else if text_eq(name, "app.stop") {
        EventTag::AppStop
    } else if text_eq(name, "app.log") {
        EventTag::AppLog
    } else if text_eq(name, "app.progress") {
        EventTag::AppProgress
    } else {
        EventTag::Unknown
    }
}

/// A notification of the daemon, decoded.
#[derive(Debug, Clone, PartialEq, Eq)]
pub enum DaemonEvent {
    /// The daemon is ready (`daemon.connected`).
    Connected { version: String },
    /// The connection was lost; made by the engine, never sent by the daemon.
    Disconnected,
    LogMessage { level: String, message: String },
    DeviceAdded { device: Device },
    DeviceRemoved { device: Device },
    AppStart { app_id: String, device_id: String },
    AppStarted { app_id: String },
    AppStop { app_id: String },
    AppLog { app_id: String, log: String },
    AppProgress { app_id: String, message: String, finished: bool },
    /// A notification that the engine does not know, or whose parameters lack
    /// what it needs.
    Unknown { name: String },
}

impl DaemonEvent {
    /// A field-by-field copy.
    pub fn duplicate(&self) -> (r: DaemonEvent)
        ensures
            r == *self,
    {
        match self {
            DaemonEvent::Connected { version } => DaemonEvent::Connected { version: version.clone() },
            DaemonEvent::Disconnected => DaemonEvent::Disconnected,
            DaemonEvent::LogMessage { level, message } => DaemonEvent::LogMessage {
                level: level.clone(),
                message: message.clone(),
            },
            DaemonEvent::DeviceAdded { device } => DaemonEvent::DeviceAdded {
                device: device.duplicate(),
            },
            DaemonEvent::DeviceRemoved { device } => DaemonEvent::DeviceRemoved {
                device: device.duplicate(),
            },
            DaemonEvent::AppStart { app_id, device_id } => DaemonEvent::AppStart {
                app_id: app_id.clone(),
                device_id: device_id.clone(),
            },
            DaemonEvent::AppStarted { app_id } => DaemonEvent::AppStarted { app_id: app_id.clone() },
            DaemonEvent::AppStop { app_id } => DaemonEvent::AppStop { app_id: app_id.clone() },
            DaemonEvent::AppLog { app_id, log } => DaemonEvent::AppLog {
                app_id: app_id.clone(),
                log: log.clone(),
            },
            DaemonEvent::AppProgress { app_id, message, finished } => DaemonEvent::AppProgress {
                app_id: app_id.clone(),
                message: message.clone(),
                finished: *finished,
            },
            DaemonEvent::Unknown { name } => DaemonEvent::Unknown { name: name.clone() },
        }
    }
}

pub open spec fn is_unknown(e: DaemonEvent, name: Seq<char>) -> bool {
    e matches DaemonEvent::Unknown { name: n } && n@ == name
}

/// The event that the notification `name` with parameters `params` is.
pub open spec fn classifies(name: Seq<char>, params: JsonValue, e: DaemonEvent) -> bool {
    let app_id = text_of(member(params, "appId"@));
    match tag_of(name) {
        EventTag::Connected => e matches DaemonEvent::Connected { version } && version@
            == text_or_empty(member(params, "version"@)),
        EventTag::LogMessage => e matches DaemonEvent::LogMessage { level, message } && level@
            == text_or_empty(member(params, "level"@)) && message@ == text_or_empty(
            member(params, "message"@),
        ),
        EventTag::DeviceAdded => if text_of(member(params, "id"@)) is Some {
            e matches DaemonEvent::DeviceAdded { device } && describes_device(params, device)
        } else {
            is_unknown(e, name)
        },
        EventTag::DeviceRemoved => if text_of(member(params, "id"@)) is Some {
            e matches DaemonEvent::DeviceRemoved { device } && describes_device(params, device)
        } else {
            is_unknown(e, name)
        },
        EventTag::AppStart => match app_id {
            Some(id) => e matches DaemonEvent::AppStart { app_id: a, device_id: d } && a@ == id
                && d@ == text_or_empty(member(params, "deviceId"@)),
            None => is_unknown(e, name),
        },
        EventTag::AppStarted => match app_id {
            Some(id) => e matches DaemonEvent::AppStarted { app_id: a } && a@ == id,
            None => is_unknown(e, name),
        },
        EventTag::AppStop => match app_id {
            Some(id) => e matches DaemonEvent::AppStop { app_id: a } && a@ == id,
            None => is_unknown(e, name),
        },
        EventTag::AppLog => match app_id {
            Some(id) => e matches DaemonEvent::AppLog { app_id: a, log } && a@ == id && log@
                == text_or_empty(member(params, "log"@)),
            None => is_unknown(e, name),
        },
        EventTag::AppProgress => match app_id {
            Some(id) => e matches DaemonEvent::AppProgress { app_id: a, message, finished } && a@
                == id && message@ == text_or_empty(member(params, "message"@)) && finished
                == flag_of(member(params, "finished"@)),
            None => is_unknown(e, name),
        },
        EventTag::Unknown => is_unknown(e, name),
    }
}

/// Decodes the notification `name` with parameters `params`. It never fails:
/// what it does not know becomes [`DaemonEvent::Unknown`].
pub fn classify(name: &String, params: &JsonValue) -> (r: DaemonEvent)
    ensures
        classifies(name@, *params, r),
{
    let tag = event_tag(name.as_str());
    let unknown = DaemonEvent::Unknown { name: name.clone() };
    match tag {
        EventTag::Connected => DaemonEvent::Connected { version: params.text_or_empty("version") },
        EventTag::LogMessage => DaemonEvent::LogMessage {
            level: params.text_or_empty("level"),
            message: params.text_or_empty("message"),
        },
        EventTag::DeviceAdded => match device_from_json(params) {
            Some(device) => DaemonEvent::DeviceAdded { device },
            None => unknown,
        },
        EventTag::DeviceRemoved => match device_from_json(params) {
            Some(device) => DaemonEvent::DeviceRemoved { device },
            None => unknown,
        },
        EventTag::Unknown => unknown,
        _ => {
            let app_id = match params.get_text("appId") {
                Some(a) => a.clone(),
                None => return unknown,
            };
            match tag {
                EventTag::AppStart => DaemonEvent::AppStart {
                    app_id,
                    device_id: params.text_or_empty("deviceId"),
                },
                EventTag::AppStarted => DaemonEvent::AppStarted { app_id },
                EventTag::AppStop => DaemonEvent::AppStop { app_id },
                EventTag::AppLog => DaemonEvent::AppLog { app_id, log: params.text_or_empty("log") },
                _ => DaemonEvent::AppProgress {
                    app_id,
                    message: params.text_or_empty("message"),
                    finished: params.flag("finished"),
                },
            }
        },
    }
}

/// The channels that events are published on.
#[derive(Debug, Clone, Copy, PartialEq, Eq, Structural)]
pub enum Topic {
    /// Connection established or lost.
    Connection,
    /// Devices added or removed.
    Devices,
    /// Application lifecycle progress.
    Sessions,
    /// Log lines.
    Logs,
    /// Everything that the engine does not know.
    Other,
}

pub open spec fn topic_of(e: DaemonEvent) -> Topic {
    match e {
        DaemonEvent::Connected { .. } | DaemonEvent::Disconnected => Topic::Connection,
        DaemonEvent::DeviceAdded { .. } | DaemonEvent::DeviceRemoved { .. } => Topic::Devices,
        DaemonEvent::AppStart { .. } | DaemonEvent::AppStarted { .. } | DaemonEvent::AppStop {
            ..
        } | DaemonEvent::AppProgress { .. } => Topic::Sessions,
        DaemonEvent::LogMessage { .. } | DaemonEvent::AppLog { .. } => Topic::Logs,
        DaemonEvent::Unknown { .. } => Topic::Other,
    }
}

/// The topic that `e` is published on.
pub fn topic(e: &DaemonEvent) -> (r: Topic)
    ensures
        r == topic_of(*e),
{
    match e {
        DaemonEvent::Connected { .. } | DaemonEvent::Disconnected => Topic::Connection,
        DaemonEvent::DeviceAdded { .. } | DaemonEvent::DeviceRemoved { .. } => Topic::Devices,
        DaemonEvent::AppStart { .. } | DaemonEvent::AppStarted { .. } | DaemonEvent::AppStop {
            ..
        } | DaemonEvent::AppProgress { .. } => Topic::Sessions,
        DaemonEvent::LogMessage { .. } | DaemonEvent::AppLog { .. } => Topic::Logs,
        DaemonEvent::Unknown { .. } => Topic::Other,
    }
}

/// A notification whose name the engine does not know is decoded as unknown
/// and is published on the catch-all topic, and only unknown events are
/// published there.
pub proof fn lemma_unknown_only_on_catch_all(name: Seq<char>, params: JsonValue, e: DaemonEvent)
    requires
        classifies(name, params, e),
    ensures
        tag_of(name) == EventTag::Unknown ==> topic_of(e) == Topic::Other,
        topic_of(e) == Topic::Other <==> e is Unknown,
{
}


/// How many events a topic keeps for subscribers that have not read them.
pub const TOPIC_CAPACITY: usize = 64;

/// A bounded broadcast channel. Every event published gets the next sequence
/// number; the channel keeps the latest `capacity` of them. Subscribers read
/// without consuming: each has its own position.
pub struct TopicChannel {
    capacity: usize,
    buffer: Vec<DaemonEvent>,
    start: u64,
}

/// A subscriber's position on one topic: the sequence number of the next
/// event it reads.
#[derive(Debug, Clone, Copy, PartialEq, Eq)]
pub struct Subscription {
    pub topic: Topic,
    pub next: u64,
}

/// What a subscriber reads.
#[derive(Debug, Clone, PartialEq, Eq)]
pub enum Received {
    /// The next event.
    Event(DaemonEvent),
    /// The subscriber fell behind: this many events were dropped before it
    /// read them. It goes on from the oldest event kept.
    Lagged(u64),
    /// Nothing new was published.
    Empty,
}

/// What publishing `e` makes of the events kept, `kept`, and the sequence
/// number of the first of them, `first`: the oldest goes once more than
/// `capacity` would be kept.
pub open spec fn after_publish(kept: Seq<DaemonEvent>, first: u64, capacity: nat, e: DaemonEvent) -> (
    Seq<DaemonEvent>,
    int,
) {
    let all = kept.push(e);
    if all.len() <= capacity {
        (all, first as int)
    } else {
        (all.drop_first(), first + 1)
    }
}

impl TopicChannel {
    pub closed spec fn kept(&self) -> Seq<DaemonEvent> {
        self.buffer@
    }

    /// The sequence number of the oldest event kept.
    pub closed spec fn first(&self) -> u64 {
        self.start
    }

    pub closed spec fn bound(&self) -> nat {
        self.capacity as nat
    }

    pub closed spec fn wf(&self) -> bool {
        &&& 1 <= self.capacity
        &&& self.buffer@.len() <= self.capacity
        &&& self.start + self.buffer@.len() <= u64::MAX
    }

    /// The sequence number that the next event published gets.
    pub open spec fn end(&self) -> int {
        self.first() + self.kept().len()
    }

    /// An empty channel that keeps up to `capacity` events.
    pub fn new(capacity: usize) -> (r: TopicChannel)
        requires
            capacity >= 1,
        ensures
            r.wf(),
            r.bound() == capacity,
            r.kept().len() == 0,
            r.first() == 0,
    {
        TopicChannel { capacity, buffer: Vec::new(), start: 0 }
    }

    /// Publishes `e` to every subscriber. Answers `false`, and keeps nothing,
    /// only once every sequence number has been used.
    pub fn publish(&mut self, e: DaemonEvent) -> (r: bool)
        requires
            old(self).wf(),
        ensures
            final(self).wf(),
            final(self).bound() == old(self).bound(),
            r == (old(self).end() < u64::MAX),
            r ==> (final(self).kept(), final(self).first() as int) == after_publish(
                old(self).kept(),
                old(self).first(),
                old(self).bound(),
                e,
            ),
            !r ==> *final(self) == *old(self),
    {
        let len = self.buffer.len();
        if self.start + len as u64 == u64::MAX {
            return false;
        }
        self.buffer.push(e);
        if self.buffer.len() > self.capacity {
            self.buffer.remove(0);
            self.start = self.start + 1;
        }
        true
    }

    /// A subscription that reads every event published from now on.
    pub fn subscribe(&self, topic: Topic) -> (r: Subscription)
        requires
            self.wf(),
        ensures
            r.topic == topic,
            r.next == self.end(),
    {
        Subscription { topic, next: self.start + self.buffer.len() as u64 }
    }

    /// The next event for `sub`, which then moves past it.
    pub fn recv(&self, sub: &mut Subscription) -> (r: Received)
        requires
            self.wf(),
        ensures
            final(sub).topic == old(sub).topic,
            old(sub).next < self.first() ==> r == Received::Lagged(
                (self.first() - old(sub).next) as u64,
            ) && final(sub).next == self.first(),
            self.first() <= old(sub).next < self.end() ==> r == Received::Event(
                self.kept()[old(sub).next - self.first()],
            ) && final(sub).next == old(sub).next + 1,
            old(sub).next >= self.end() ==> r == Received::Empty && *final(sub) == *old(sub),
    {
        if sub.next < self.start {
            let skipped = self.start - sub.next;
            sub.next = self.start;
            Received::Lagged(skipped)
        } else if sub.next - self.start < self.buffer.len() as u64 {
            let k = (sub.next - self.start) as usize;
            let e = self.buffer[k].duplicate();
            sub.next = sub.next + 1;
            Received::Event(e)
        } else {
            Received::Empty
        }
    }
}

/// The event just published is the newest that its channel keeps.
pub proof fn lemma_published_is_newest(c: TopicChannel, e: DaemonEvent)
    requires
        c.wf(),
    ensures
        ({
            let (kept, _) = after_publish(c.kept(), c.first(), c.bound(), e);
            kept.len() > 0 && kept.last() == e
        }),
{
    let all = c.kept().push(e);
    if all.len() > c.bound() {
        assert(all.drop_first().last() == all.last());
    }
}

/// The dispatcher: one channel per topic.
pub struct Dispatcher {
    connection: TopicChannel,
    devices: TopicChannel,
    sessions: TopicChannel,
    logs: TopicChannel,
    other: TopicChannel,
}

impl Dispatcher {
    /// The channel of topic `t`.
    pub closed spec fn channel(&self, t: Topic) -> TopicChannel {
        match t {
            Topic::Connection => self.connection,
            Topic::Devices => self.devices,
            Topic::Sessions => self.sessions,
            Topic::Logs => self.logs,
            Topic::Other => self.other,
        }
    }

    pub closed spec fn wf(&self) -> bool {
        &&& self.connection.wf()
        &&& self.devices.wf()
        &&& self.sessions.wf()
        &&& self.logs.wf()
        &&& self.other.wf()
    }

    /// Every channel of a well-formed dispatcher is well-formed.
    pub proof fn lemma_channels_wf(&self)
        requires
            self.wf(),
        ensures
            forall|t: Topic| (#[trigger] self.channel(t)).wf(),
    {
    }

    pub fn new() -> (r: Dispatcher)
        ensures
            r.wf(),
            forall|t: Topic|
                (#[trigger] r.channel(t)).kept().len() == 0 && r.channel(t).bound()
                    == TOPIC_CAPACITY,
    {
        Dispatcher {
            connection: TopicChannel::new(TOPIC_CAPACITY),
            devices: TopicChannel::new(TOPIC_CAPACITY),
            sessions: TopicChannel::new(TOPIC_CAPACITY),
            logs: TopicChannel::new(TOPIC_CAPACITY),
            other: TopicChannel::new(TOPIC_CAPACITY),
        }
    }

    /// Publishes `e` on its topic; every other topic is left as it was.
    pub fn publish(&mut self, e: DaemonEvent) -> (r: bool)
        requires
            old(self).wf(),
        ensures
            final(self).wf(),
            forall|t: Topic| t != topic_of(e) ==> #[trigger] final(self).channel(t) == old(self).channel(t),
            ({
                let before = old(self).channel(topic_of(e));
                let after = final(self).channel(topic_of(e));
                &&& after.bound() == before.bound()
                &&& r == (before.end() < u64::MAX)
                &&& r ==> (after.kept(), after.first() as int) == after_publish(
                    before.kept(),
                    before.first(),
                    before.bound(),
                    e,
                )
                &&& !r ==> after == before
            }),
    {
        match topic(&e) {
            Topic::Connection => self.connection.publish(e),
            Topic::Devices => self.devices.publish(e),
            Topic::Sessions => self.sessions.publish(e),
            Topic::Logs => self.logs.publish(e),
            Topic::Other => self.other.publish(e),
        }
    }

    /// A subscription to `t` that reads every event published on it from now
    /// on.
    pub fn subscribe(&self, t: Topic) -> (r: Subscription)
        requires
            self.wf(),
        ensures
            r.topic == t,
            r.next == self.channel(t).end(),
    {
        match t {
            Topic::Connection => self.connection.subscribe(t),
            Topic::Devices => self.devices.subscribe(t),
            Topic::Sessions => self.sessions.subscribe(t),
            Topic::Logs => self.logs.subscribe(t),
            Topic::Other => self.other.subscribe(t),
        }
    }

    /// The next event for `sub` on its topic.
    pub fn recv(&self, sub: &mut Subscription) -> (r: Received)
        requires
            self.wf(),
        ensures
            final(sub).topic == old(sub).topic,
            ({
                let c = self.channel(old(sub).topic);
                &&& old(sub).next < c.first() ==> r == Received::Lagged(
                    (c.first() - old(sub).next) as u64,
                ) && final(sub).next == c.first()
                &&& c.first() <= old(sub).next < c.end() ==> r == Received::Event(
                    c.kept()[old(sub).next - c.first()],
                ) && final(sub).next == old(sub).next + 1
                &&& old(sub).next >= c.end() ==> r == Received::Empty && *final(sub) == *old(sub)
            }),
    {
        match sub.topic {
            Topic::Connection => self.connection.recv(sub),
            Topic::Devices => self.devices.recv(sub),
            Topic::Sessions => self.sessions.recv(sub),
            Topic::Logs => self.logs.recv(sub),
            Topic::Other => self.other.recv(sub),
        }
    }
}

} // verus!
