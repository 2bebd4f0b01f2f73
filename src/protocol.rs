//! Typed messages of the daemon protocol.

use vstd::prelude::*;
use crate::correlator::CallError;
use crate::json::{flag_of, member, text_of, text_or_empty, JsonValue};

verus! {

/// What a device can do, as the daemon reports it.
#[derive(Debug, Clone, Copy, PartialEq, Eq)]
pub struct DeviceCapabilities {
    pub hot_reload: bool,
    pub hot_restart: bool,
    pub screenshot: bool,
    pub fast_start: bool,
    pub flutter_exit: bool,
    pub hardware_rendering: bool,
    pub start_paused: bool,
}

/// A device that an application can run on. Devices are identified by `id`.
#[derive(Debug, Clone, PartialEq, Eq)]
pub struct Device {
    pub id: String,
    pub name: String,
    pub platform: String,
    pub emulator: bool,
    pub category: String,
    pub platform_type: String,
    pub ephemeral: bool,
    pub emulator_id: String,
    pub sdk: String,
    pub capabilities: DeviceCapabilities,
}

impl Device {
    /// A field-by-field copy.
    pub fn duplicate(&self) -> (r: Device)
        ensures
            r == *self,
    {
        Device {
            id: self.id.clone(),
            name: self.name.clone(),
            platform: self.platform.clone(),
            emulator: self.emulator,
            category: self.category.clone(),
            platform_type: self.platform_type.clone(),
            ephemeral: self.ephemeral,
            emulator_id: self.emulator_id.clone(),
            sdk: self.sdk.clone(),
            capabilities: self.capabilities,
        }
    }
}


/// An inbound message, routed by the presence of `id` or `event`.
#[derive(Debug, PartialEq, Eq)]
pub enum Inbound {
    /// The answer to the request `id`.
    Response { id: u64, outcome: Result<JsonValue, CallError> },
    /// A notification named `name`.
    Event { name: String, params: JsonValue },
    /// A message that bears neither, or an `id` that is no request id, or an
    /// `event` that is no text.
    Malformed,
}

/// The member `key` of `v`, or `null` where it has none.
pub open spec fn member_or_null(v: JsonValue, key: Seq<char>) -> JsonValue {
    match member(v, key) {
        Some(x) => x,
        None => JsonValue::Null,
    }
}

/// The integer code of an error payload, where it has one that fits.
pub open spec fn code_of(e: JsonValue) -> Option<i64> {
    match member(e, "code"@) {
        Some(JsonValue::Int(n)) => Some(n),
        Some(JsonValue::UInt(n)) => if n <= i64::MAX as u64 {
            Some(n as i64)
        } else {
            None
        },
        _ => None,
    }
}

/// What the daemon's error payload `e` says: a bare text is the message; an
/// object gives its `code` and `message` members.
pub open spec fn is_daemon_error(e: JsonValue, c: CallError) -> bool {
    match c {
        CallError::Daemon { code, message } => match e {
            JsonValue::Str(s) => code is None && message@ == s@,
            _ => code == code_of(e) && message@ == text_or_empty(member(e, "message"@)),
        },
        _ => false,
    }
}

/// The error that the payload `e` of an `error` member stands for.
pub fn daemon_error(e: &JsonValue) -> (r: CallError)
    ensures
        is_daemon_error(*e, r),
{
    match e {
        JsonValue::Str(s) => CallError::Daemon { code: None, message: s.clone() },
        _ => {
            let code = match e.get("code") {
                Some(JsonValue::Int(n)) => Some(*n),
                Some(JsonValue::UInt(n)) => if *n <= i64::MAX as u64 {
                    Some(*n as i64)
                } else {
                    None
                },
                _ => None,
            };
            CallError::Daemon { code, message: e.text_or_empty("message") }
        },
    }
}

/// How a message is routed: one that bears an `id` is an answer, one that
/// bears an `event` and no `id` is a notification.
pub open spec fn routes_to(msg: JsonValue, r: Inbound) -> bool {
    match member(msg, "id"@) {
        Some(JsonValue::UInt(id)) => match member(msg, "error"@) {
            Some(e) => r matches Inbound::Response { id: i, outcome: Err(c) } && i == id
                && is_daemon_error(e, c),
            None => r == Inbound::Response {
                id,
                outcome: Ok(member_or_null(msg, "result"@)),
            },
        },
        Some(_) => r == Inbound::Malformed,
        None => match text_of(member(msg, "event"@)) {
            Some(name) => r matches Inbound::Event { name: n, params } && n@ == name && params
                == member_or_null(msg, "params"@),
            None => r == Inbound::Malformed,
        },
    }
}

/// Routes one message of a frame.
pub fn route(msg: JsonValue) -> (r: Inbound)
    ensures
        routes_to(msg, r),
{
    let id = match msg.get("id") {
        None => None,
        Some(JsonValue::UInt(n)) => Some(Some(*n)),
        Some(_) => Some(None),
    };
    match id {
        Some(Some(n)) => {
            let err = match msg.get("error") {
                Some(e) => Some(daemon_error(e)),
                None => None,
            };
            match err {
                Some(c) => Inbound::Response { id: n, outcome: Err(c) },
                None => {
                    let result = match msg.into_member("result") {
                        Some(v) => v,
                        None => JsonValue::Null,
                    };
                    Inbound::Response { id: n, outcome: Ok(result) }
                },
            }
        },
        Some(None) => Inbound::Malformed,
        None => {
            let name = match msg.get_text("event") {
                Some(t) => Some(t.clone()),
                None => None,
            };
            match name {
                Some(name) => {
                    let params = match msg.into_member("params") {
                        Some(v) => v,
                        None => JsonValue::Null,
                    };
                    Inbound::Event { name, params }
                },
                None => Inbound::Malformed,
            }
        },
    }
}

/// The flag `key` of the object `outer` inside `v`; `false` where any of it is
/// missing.
pub open spec fn inner_flag(v: JsonValue, outer: Seq<char>, key: Seq<char>) -> bool {
    match member(v, outer) {
        Some(o) => flag_of(member(o, key)),
        None => false,
    }
}

/// The device that `v` describes: `v` must give a text `id`; a missing text
/// is empty and a missing flag is false.
pub open spec fn describes_device(v: JsonValue, d: Device) -> bool {
    &&& text_of(member(v, "id"@)) == Some(d.id@)
    &&& d.name@ == text_or_empty(member(v, "name"@))
    &&& d.platform@ == text_or_empty(member(v, "platform"@))
    &&& d.emulator == flag_of(member(v, "emulator"@))
    &&& d.category@ == text_or_empty(member(v, "category"@))
    &&& d.platform_type@ == text_or_empty(member(v, "platformType"@))
    &&& d.ephemeral == flag_of(member(v, "ephemeral"@))
    &&& d.emulator_id@ == text_or_empty(member(v, "emulatorId"@))
    &&& d.sdk@ == text_or_empty(member(v, "sdk"@))
    &&& d.capabilities.hot_reload == inner_flag(v, "capabilities"@, "hotReload"@)
    &&& d.capabilities.hot_restart == inner_flag(v, "capabilities"@, "hotRestart"@)
    &&& d.capabilities.screenshot == inner_flag(v, "capabilities"@, "screenshot"@)
    &&& d.capabilities.fast_start == inner_flag(v, "capabilities"@, "fastStart"@)
    &&& d.capabilities.flutter_exit == inner_flag(v, "capabilities"@, "flutterExit"@)
    &&& d.capabilities.hardware_rendering == inner_flag(
        v,
        "capabilities"@,
        "hardwareRendering"@,
    )
    &&& d.capabilities.start_paused == inner_flag(v, "capabilities"@, "startPaused"@)
}

fn inner_flag_of(v: &JsonValue, outer: &str, key: &str) -> (r: bool)
    ensures
        r == inner_flag(*v, outer@, key@),
{
    match v.get(outer) {
        Some(o) => o.flag(key),
        None => false,
    }
}

/// Reads a device description, as `device.added`, `device.removed` and
/// `device.getDevices` give it. `None` where it has no text `id`.
pub fn device_from_json(v: &JsonValue) -> (r: Option<Device>)
    ensures
        r is None <==> text_of(member(*v, "id"@)) is None,
        r matches Some(d) ==> describes_device(*v, d),
{
    let id = match v.get_text("id") {
        Some(t) => t.clone(),
        None => return None,
    };
    let capabilities = DeviceCapabilities {
        hot_reload: inner_flag_of(v, "capabilities", "hotReload"),
        hot_restart: inner_flag_of(v, "capabilities", "hotRestart"),
        screenshot: inner_flag_of(v, "capabilities", "screenshot"),
        fast_start: inner_flag_of(v, "capabilities", "fastStart"),
        flutter_exit: inner_flag_of(v, "capabilities", "flutterExit"),
        hardware_rendering: inner_flag_of(v, "capabilities", "hardwareRendering"),
        start_paused: inner_flag_of(v, "capabilities", "startPaused"),
    };
    Some(
        Device {
            id,
            name: v.text_or_empty("name"),
            platform: v.text_or_empty("platform"),
            emulator: v.flag("emulator"),
            category: v.text_or_empty("category"),
            platform_type: v.text_or_empty("platformType"),
            ephemeral: v.flag("ephemeral"),
            emulator_id: v.text_or_empty("emulatorId"),
            sdk: v.text_or_empty("sdk"),
            capabilities,
        },
    )
}

/// Whether every item of `items` is a text.
pub open spec fn all_texts(items: Seq<JsonValue>) -> bool {
    forall|i: int| 0 <= i < items.len() ==> items[i] is Str
}

/// Whether `v` is an array of texts.
pub open spec fn is_text_array(v: JsonValue) -> bool {
    match v {
        JsonValue::Array(items) => all_texts(items@),
        _ => false,
    }
}

/// The texts of the items of `v`, where `v` is an array of texts.
pub fn texts_of_array(v: &JsonValue) -> (r: Option<Vec<String>>)
    ensures
        r is Some <==> is_text_array(*v),
        r matches Some(ts) ==> (*v matches JsonValue::Array(items) && ts@.len() == items@.len()
            && forall|i: int| 0 <= i < ts@.len() ==> ts@[i]@ == items@[i]->Str_0@),
{
    let items = match v {
        JsonValue::Array(items) => items,
        _ => return None,
    };
    assert(*v == JsonValue::Array(*items));
    let mut out: Vec<String> = Vec::new();
    let mut i: usize = 0;
    while i < items.len()
        invariant
            *v == JsonValue::Array(*items),
            i <= items@.len(),
            out@.len() == i,
            forall|k: int| 0 <= k < i ==> items@[k] is Str && out@[k]@ == items@[k]->Str_0@,
        decreases items@.len() - i,
    {
        let item = &items[i];
        if let JsonValue::Str(s) = item {
            out.push(s.clone());
        } else {
            assert(!all_texts(items@));
            return None;
        }
        i = i + 1;
    }
    Some(out)
}

/// The platforms that a `daemon.getSupportedPlatforms` result lists: its
/// member `platforms`, an array of texts.
pub fn platforms_from_result(result: &JsonValue) -> (r: Option<Vec<String>>)
    ensures
        r is Some <==> (member(*result, "platforms"@) matches Some(list) && is_text_array(list)),
        r matches Some(ps) ==> (member(*result, "platforms"@) matches Some(JsonValue::Array(items))
            && ps@.len() == items@.len() && forall|i: int|
            0 <= i < ps@.len() ==> ps@[i]@ == items@[i]->Str_0@),
{
    match result.get("platforms") {
        Some(list) => texts_of_array(list),
        None => None,
    }
}

/// The application id that a launch result names: its text member `appId`.
pub fn app_id_from_result(result: &JsonValue) -> (r: Option<String>)
    ensures
        r is Some <==> text_of(member(*result, "appId"@)) is Some,
        r matches Some(id) ==> text_of(member(*result, "appId"@)) == Some(id@) && member(
            *result,
            "appId"@,
        ) == Some(JsonValue::Str(id)),
{
    match result.get_text("appId") {
        Some(t) => Some(t.clone()),
        None => None,
    }
}


/// The id of a response message, where it is an integer that fits in 32 bits.
pub open spec fn id32_of(msg: JsonValue) -> Option<u32> {
    match member(msg, "id"@) {
        Some(JsonValue::UInt(n)) => if n <= u32::MAX as u64 {
            Some(n as u32)
        } else {
            None
        },
        _ => None,
    }
}

fn id32(msg: &JsonValue) -> (r: Option<u32>)
    ensures
        r == id32_of(*msg),
{
    match msg.get("id") {
        Some(JsonValue::UInt(n)) => if *n <= u32::MAX as u64 {
            Some(*n as u32)
        } else {
            None
        },
        _ => None,
    }
}

/// The answer to a request that returns nothing but its id.
#[derive(Debug, Clone, Copy, PartialEq, Eq)]
pub struct ShutdownResponse {
    pub id: u32,
}

impl ShutdownResponse {
    /// Reads the message; `None` where its id is missing or no 32-bit integer.
    pub fn from_json(msg: &JsonValue) -> (r: Option<ShutdownResponse>)
        ensures
            match id32_of(*msg) {
                Some(id) => r == Some(ShutdownResponse { id }),
                None => r is None,
            },
    {
        match id32(msg) {
            Some(id) => Some(ShutdownResponse { id }),
            None => None,
        }
    }
}

/// The answer to a request that returns nothing but its id.
#[derive(Debug, Clone, Copy, PartialEq, Eq)]
pub struct DeviceEnableResponse {
    pub id: u32,
}

impl DeviceEnableResponse {
    /// Reads the message; `None` where its id is missing or no 32-bit integer.
    pub fn from_json(msg: &JsonValue) -> (r: Option<DeviceEnableResponse>)
        ensures
            match id32_of(*msg) {
                Some(id) => r == Some(DeviceEnableResponse { id }),
                None => r is None,
            },
    {
        match id32(msg) {
            Some(id) => Some(DeviceEnableResponse { id }),
            None => None,
        }
    }
}

/// The answer to a request that returns nothing but its id.
#[derive(Debug, Clone, Copy, PartialEq, Eq)]
pub struct DeviceDisableResponse {
    pub id: u32,
}

impl DeviceDisableResponse {
    /// Reads the message; `None` where its id is missing or no 32-bit integer.
    pub fn from_json(msg: &JsonValue) -> (r: Option<DeviceDisableResponse>)
        ensures
            match id32_of(*msg) {
                Some(id) => r == Some(DeviceDisableResponse { id }),
                None => r is None,
            },
    {
        match id32(msg) {
            Some(id) => Some(DeviceDisableResponse { id }),
            None => None,
        }
    }
}

/// The answer to a request that returns nothing but its id.
#[derive(Debug, Clone, Copy, PartialEq, Eq)]
pub struct DeviceForwardResponse {
    pub id: u32,
}

impl DeviceForwardResponse {
    /// Reads the message; `None` where its id is missing or no 32-bit integer.
    pub fn from_json(msg: &JsonValue) -> (r: Option<DeviceForwardResponse>)
        ensures
            match id32_of(*msg) {
                Some(id) => r == Some(DeviceForwardResponse { id }),
                None => r is None,
            },
    {
        match id32(msg) {
            Some(id) => Some(DeviceForwardResponse { id }),
            None => None,
        }
    }
}

/// The answer to a request that returns nothing but its id.
#[derive(Debug, Clone, Copy, PartialEq, Eq)]
pub struct DeviceUnforwardResponse {
    pub id: u32,
}

impl DeviceUnforwardResponse {
    /// Reads the message; `None` where its id is missing or no 32-bit integer.
    pub fn from_json(msg: &JsonValue) -> (r: Option<DeviceUnforwardResponse>)
        ensures
            match id32_of(*msg) {
                Some(id) => r == Some(DeviceUnforwardResponse { id }),
                None => r is None,
            },
    {
        match id32(msg) {
            Some(id) => Some(DeviceUnforwardResponse { id }),
            None => None,
        }
    }
}

/// The answer to a request that returns nothing but its id.
#[derive(Debug, Clone, Copy, PartialEq, Eq)]
pub struct EmulatorLaunchResponse {
    pub id: u32,
}

impl EmulatorLaunchResponse {
    /// Reads the message; `None` where its id is missing or no 32-bit integer.
    pub fn from_json(msg: &JsonValue) -> (r: Option<EmulatorLaunchResponse>)
        ensures
            match id32_of(*msg) {
                Some(id) => r == Some(EmulatorLaunchResponse { id }),
                None => r is None,
            },
    {
        match id32(msg) {
            Some(id) => Some(EmulatorLaunchResponse { id }),
            None => None,
        }
    }
}

/// The answer to a request that returns nothing but its id.
#[derive(Debug, Clone, Copy, PartialEq, Eq)]
pub struct EmulatorCreateResponse {
    pub id: u32,
}

impl EmulatorCreateResponse {
    /// Reads the message; `None` where its id is missing or no 32-bit integer.
    pub fn from_json(msg: &JsonValue) -> (r: Option<EmulatorCreateResponse>)
        ensures
            match id32_of(*msg) {
                Some(id) => r == Some(EmulatorCreateResponse { id }),
                None => r is None,
            },
    {
        match id32(msg) {
            Some(id) => Some(EmulatorCreateResponse { id }),
            None => None,
        }
    }
}

/// The answer to `daemon.version`.
#[derive(Debug, Clone, PartialEq, Eq)]
pub struct VersionResponse {
    pub id: u32,
    pub result: String,
}

impl VersionResponse {
    /// Reads the message; `None` where its id or its text result is missing.
    pub fn from_json(msg: &JsonValue) -> (r: Option<VersionResponse>)
        ensures
            r is Some <==> (id32_of(*msg) is Some && text_of(member(*msg, "result"@)) is Some),
            r matches Some(v) ==> id32_of(*msg) == Some(v.id) && text_of(member(*msg, "result"@))
                == Some(v.result@),
    {
        let id = match id32(msg) {
            Some(id) => id,
            None => return None,
        };
        match msg.get_text("result") {
            Some(t) => Some(VersionResponse { id, result: t.clone() }),
            None => None,
        }
    }
}

/// The platforms that a project supports.
#[derive(Debug, Clone, PartialEq, Eq)]
pub struct GetSupportedPlatformsResult {
    pub platforms: Vec<String>,
}

/// The answer to `daemon.getSupportedPlatforms`.
#[derive(Debug, Clone, PartialEq, Eq)]
pub struct GetSupportedPlatformsResponse {
    pub id: u32,
    pub result: GetSupportedPlatformsResult,
}

/// Whether `v` holds a member `platforms` that is an array of texts.
pub open spec fn lists_platforms(v: JsonValue) -> bool {
    member(v, "platforms"@) matches Some(list) && is_text_array(list)
}

impl GetSupportedPlatformsResponse {
    /// Reads the message; `None` where its id is missing or its result lists
    /// no platforms.
    pub fn from_json(msg: &JsonValue) -> (r: Option<GetSupportedPlatformsResponse>)
        ensures
            r is Some <==> (id32_of(*msg) is Some && (member(*msg, "result"@) matches Some(res)
                && lists_platforms(res))),
            r matches Some(v) ==> id32_of(*msg) == Some(v.id) && (member(*msg, "result"@) matches Some(res)
                && member(res, "platforms"@) matches Some(JsonValue::Array(items))
                && v.result.platforms@.len() == items@.len() && forall|i: int|
                0 <= i < items@.len() ==> v.result.platforms@[i]@ == items@[i]->Str_0@),
    {
        let id = match id32(msg) {
            Some(id) => id,
            None => return None,
        };
        match msg.get("result") {
            Some(res) => match platforms_from_result(res) {
                Some(platforms) => Some(
                    GetSupportedPlatformsResponse {
                        id,
                        result: GetSupportedPlatformsResult { platforms },
                    },
                ),
                None => None,
            },
            None => None,
        }
    }
}

/// Whether every item of `items` describes a device.
pub open spec fn all_have_text_id(items: Seq<JsonValue>) -> bool {
    forall|i: int| 0 <= i < items.len() ==> text_of(member(items[i], "id"@)) is Some
}

/// The answer to `device.getDevices`.
#[derive(Debug, Clone, PartialEq, Eq)]
pub struct GetDevicesResponse {
    pub id: u32,
    pub result: Vec<Device>,
}

impl GetDevicesResponse {
    /// Reads the message; `None` where its id is missing, or its result is no
    /// array of device descriptions.
    pub fn from_json(msg: &JsonValue) -> (r: Option<GetDevicesResponse>)
        ensures
            r is Some <==> (id32_of(*msg) is Some && (member(*msg, "result"@) matches Some(
                JsonValue::Array(items),
            ) && all_have_text_id(items@))),
            r matches Some(v) ==> id32_of(*msg) == Some(v.id) && (member(*msg, "result"@) matches Some(
                JsonValue::Array(items),
            ) && v.result@.len() == items@.len() && forall|i: int|
                0 <= i < items@.len() ==> describes_device(items@[i], v.result@[i])),
    {
        let id = match id32(msg) {
            Some(id) => id,
            None => return None,
        };
        let items = match msg.get("result") {
            Some(JsonValue::Array(items)) => items,
            _ => return None,
        };
        let mut result: Vec<Device> = Vec::new();
        let mut i: usize = 0;
        while i < items.len()
            invariant
                member(*msg, "result"@) == Some(JsonValue::Array(*items)),
                id32_of(*msg) == Some(id),
                i <= items@.len(),
                result@.len() == i,
                forall|k: int|
                    0 <= k < i ==> text_of(member(items@[k], "id"@)) is Some && describes_device(
                        items@[k],
                        result@[k],
                    ),
            decreases items@.len() - i,
        {
            match device_from_json(&items[i]) {
                Some(d) => result.push(d),
                None => {
                    assert(!all_have_text_id(items@));
                    return None;
                },
            }
            i = i + 1;
        }
        Some(GetDevicesResponse { id, result })
    }
}

/// An emulator that can be launched.
#[derive(Debug, Clone, PartialEq, Eq)]
pub struct Emulator {
    pub id: String,
    pub name: String,
    pub category: String,
    pub platform_type: String,
}

/// The emulator that `v` describes: `v` must give a text `id`; a missing
/// text is empty.
pub open spec fn describes_emulator(v: JsonValue, e: Emulator) -> bool {
    &&& text_of(member(v, "id"@)) == Some(e.id@)
    &&& e.name@ == text_or_empty(member(v, "name"@))
    &&& e.category@ == text_or_empty(member(v, "category"@))
    &&& e.platform_type@ == text_or_empty(member(v, "platformType"@))
}

/// Reads an emulator description; `None` where it has no text `id`.
pub fn emulator_from_json(v: &JsonValue) -> (r: Option<Emulator>)
    ensures
        r is None <==> text_of(member(*v, "id"@)) is None,
        r matches Some(e) ==> describes_emulator(*v, e),
{
    match v.get_text("id") {
        Some(id) => Some(
            Emulator {
                id: id.clone(),
                name: v.text_or_empty("name"),
                category: v.text_or_empty("category"),
                platform_type: v.text_or_empty("platformType"),
            },
        ),
        None => None,
    }
}

/// The answer to `emulator.getEmulators`.
#[derive(Debug, Clone, PartialEq, Eq)]
pub struct GetEmulatorsResponse {
    pub id: u32,
    pub result: Vec<Emulator>,
}

impl GetEmulatorsResponse {
    /// Reads the message; `None` where its id is missing, or its result is no
    /// array of emulator descriptions.
    pub fn from_json(msg: &JsonValue) -> (r: Option<GetEmulatorsResponse>)
        ensures
            r is Some <==> (id32_of(*msg) is Some && (member(*msg, "result"@) matches Some(
                JsonValue::Array(items),
            ) && all_have_text_id(items@))),
            r matches Some(v) ==> id32_of(*msg) == Some(v.id) && (member(*msg, "result"@) matches Some(
                JsonValue::Array(items),
            ) && v.result@.len() == items@.len() && forall|i: int|
                0 <= i < items@.len() ==> describes_emulator(items@[i], v.result@[i])),
    {
        let id = match id32(msg) {
            Some(id) => id,
            None => return None,
        };
        let items = match msg.get("result") {
            Some(JsonValue::Array(items)) => items,
            _ => return None,
        };
        let mut result: Vec<Emulator> = Vec::new();
        let mut i: usize = 0;
        while i < items.len()
            invariant
                member(*msg, "result"@) == Some(JsonValue::Array(*items)),
                id32_of(*msg) == Some(id),
                i <= items@.len(),
                result@.len() == i,
                forall|k: int|
                    0 <= k < i ==> text_of(member(items@[k], "id"@)) is Some && describes_emulator(
                        items@[k],
                        result@[k],
                    ),
            decreases items@.len() - i,
        {
            match emulator_from_json(&items[i]) {
                Some(e) => result.push(e),
                None => {
                    assert(!all_have_text_id(items@));
                    return None;
                },
            }
            i = i + 1;
        }
        Some(GetEmulatorsResponse { id, result })
    }
}

/// Where the development tools are served.
#[derive(Debug, Clone, PartialEq, Eq)]
pub struct ServeDevToolsResult {
    pub host: Option<String>,
    pub port: Option<String>,
}

/// The answer to `devtools.serve`.
#[derive(Debug, Clone, PartialEq, Eq)]
pub struct ServeDevToolsResponse {
    pub id: u32,
    pub result: ServeDevToolsResult,
}

pub open spec fn same_text(t: Option<String>, v: Option<JsonValue>) -> bool {
    match text_of(v) {
        Some(s) => t matches Some(x) && x@ == s,
        None => t is None,
    }
}

fn optional_member_text(v: &JsonValue, key: &str) -> (r: Option<String>)
    ensures
        same_text(r, member(*v, key@)),
{
    match v.get_text(key) {
        Some(t) => Some(t.clone()),
        None => None,
    }
}

impl ServeDevToolsResponse {
    /// Reads the message; `None` where its id or its result is missing. A
    /// host or port that is missing or no text is `None`.
    pub fn from_json(msg: &JsonValue) -> (r: Option<ServeDevToolsResponse>)
        ensures
            r is Some <==> (id32_of(*msg) is Some && member(*msg, "result"@) is Some),
            r matches Some(v) ==> id32_of(*msg) == Some(v.id) && (member(*msg, "result"@) matches Some(res)
                && same_text(v.result.host, member(res, "host"@)) && same_text(
                v.result.port,
                member(res, "port"@),
            )),
    {
        let id = match id32(msg) {
            Some(id) => id,
            None => return None,
        };
        match msg.get("result") {
            Some(res) => Some(
                ServeDevToolsResponse {
                    id,
                    result: ServeDevToolsResult {
                        host: optional_member_text(res, "host"),
                        port: optional_member_text(res, "port"),
                    },
                },
            ),
            None => None,
        }
    }
}

/// The outcome of a restart.
#[derive(Debug, Clone, PartialEq, Eq)]
pub struct RestartAppResult {
    pub code: u32,
    pub message: String,
}

/// The answer to `app.restart`.
#[derive(Debug, Clone, PartialEq, Eq)]
pub struct RestartAppResponse {
    pub id: u32,
    pub result: RestartAppResult,
}

/// The 32-bit integer member `key` of `v`, where it has one.
pub open spec fn u32_member(v: JsonValue, key: Seq<char>) -> Option<u32> {
    match member(v, key) {
        Some(JsonValue::UInt(n)) => if n <= u32::MAX as u64 {
            Some(n as u32)
        } else {
            None
        },
        _ => None,
    }
}

impl RestartAppResponse {
    /// Reads the message; `None` where its id is missing, or its result lacks
    /// a 32-bit `code` or a text `message`.
    pub fn from_json(msg: &JsonValue) -> (r: Option<RestartAppResponse>)
        ensures
            r is Some <==> (id32_of(*msg) is Some && (member(*msg, "result"@) matches Some(res)
                && u32_member(res, "code"@) is Some && text_of(member(res, "message"@)) is Some)),
            r matches Some(v) ==> id32_of(*msg) == Some(v.id) && (member(*msg, "result"@) matches Some(res)
                && u32_member(res, "code"@) == Some(v.result.code) && text_of(
                member(res, "message"@),
            ) == Some(v.result.message@)),
    {
        let id = match id32(msg) {
            Some(id) => id,
            None => return None,
        };
        let res = match msg.get("result") {
            Some(res) => res,
            None => return None,
        };
        let code = match res.get("code") {
            Some(JsonValue::UInt(n)) => if *n <= u32::MAX as u64 {
                *n as u32
            } else {
                return None
            },
            _ => return None,
        };
        match res.get_text("message") {
            Some(m) => Some(
                RestartAppResponse { id, result: RestartAppResult { code, message: m.clone() } },
            ),
            None => None,
        }
    }
}

/// The answer to `app.stop`.
#[derive(Debug, Clone, Copy, PartialEq, Eq)]
pub struct StopAppResponse {
    pub id: u32,
    pub result: bool,
}

impl StopAppResponse {
    /// Reads the message; `None` where its id or its boolean result is
    /// missing.
    pub fn from_json(msg: &JsonValue) -> (r: Option<StopAppResponse>)
        ensures
            r is Some <==> (id32_of(*msg) is Some && member(*msg, "result"@) matches Some(
                JsonValue::Bool(_),
            )),
            r matches Some(v) ==> id32_of(*msg) == Some(v.id) && member(*msg, "result"@) == Some(
                JsonValue::Bool(v.result),
            ),
    {
        let id = match id32(msg) {
            Some(id) => id,
            None => return None,
        };
        match msg.get("result") {
            Some(JsonValue::Bool(b)) => Some(StopAppResponse { id, result: *b }),
            _ => None,
        }
    }
}

/// The answer to `app.detach`.
#[derive(Debug, Clone, Copy, PartialEq, Eq)]
pub struct DetachAppResponse {
    pub id: u32,
    pub result: bool,
}

impl DetachAppResponse {
    /// Reads the message; `None` where its id or its boolean result is
    /// missing.
    pub fn from_json(msg: &JsonValue) -> (r: Option<DetachAppResponse>)
        ensures
            r is Some <==> (id32_of(*msg) is Some && member(*msg, "result"@) matches Some(
                JsonValue::Bool(_),
            )),
            r matches Some(v) ==> id32_of(*msg) == Some(v.id) && member(*msg, "result"@) == Some(
                JsonValue::Bool(v.result),
            ),
    {
        let id = match id32(msg) {
            Some(id) => id,
            None => return None,
        };
        match msg.get("result") {
            Some(JsonValue::Bool(b)) => Some(DetachAppResponse { id, result: *b }),
            _ => None,
        }
    }
}

} // verus!
