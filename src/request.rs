//! Outbound requests and their wire text: one JSON object per request, sent
//! as a single-element JSON array on a line of its own.

use vstd::prelude::*;
use vstd::string::StringExecFns;
use crate::json::JsonValue;

verus! {

/// The hexadecimal digit `d`, in lower case.
pub open spec fn hex_digit(d: nat) -> char {
    if d < 10 {
        digit(d)
    } else if d == 10 {
        'a'
    } else if d == 11 {
        'b'
    } else if d == 12 {
        'c'
    } else if d == 13 {
        'd'
    } else if d == 14 {
        'e'
    } else {
        'f'
    }
}

/// How a JSON string literal writes the character `c`: a quote and a
/// backslash get a backslash, the control characters with a short escape get
/// it, any other control character is written as `\u00` and two hexadecimal
/// digits, and every other character stands for itself.
pub open spec fn escape_char(c: char) -> Seq<char> {
    if c == '"' {
        seq!['\\', '"']
    } else if c == '\\' {
        seq!['\\', '\\']
    } else if c == '\x08' {
        seq!['\\', 'b']
    } else if c == '\t' {
        seq!['\\', 't']
    } else if c == '\n' {
        seq!['\\', 'n']
    } else if c == '\x0c' {
        seq!['\\', 'f']
    } else if c == '\r' {
        seq!['\\', 'r']
    } else if (c as u32) < 0x20 {
        seq!['\\', 'u', '0', '0', hex_digit((c as u32 / 16) as nat), hex_digit((c as u32 % 16) as nat)]
    } else {
        seq![c]
    }
}

/// The characters of `s`, each as a JSON string literal writes it.
pub open spec fn escaped(s: Seq<char>) -> Seq<char>
    decreases s.len(),
{
    if s.len() == 0 {
        Seq::empty()
    } else {
        escaped(s.drop_last()) + escape_char(s.last())
    }
}

/// The JSON string literal that stands for the text `s`.
#[verifier::opaque]
pub open spec fn json_quoted(s: Seq<char>) -> Seq<char> {
    seq!['"'] + escaped(s) + seq!['"']
}

/// Relies on serde_json's `Display` for `Value::String`, which writes a text
/// as a compact JSON string literal: quoted, escaped as its escape table and
/// `write_char_escape` say.
#[verifier::external_body]
fn quote(s: &str) -> (r: String)
    ensures
        r@ == json_quoted(s@),
{
    serde_json::Value::String(s.to_string()).to_string()
}

/// The decimal digit `d`.
pub open spec fn digit(d: nat) -> char {
    if d == 0 {
        '0'
    } else if d == 1 {
        '1'
    } else if d == 2 {
        '2'
    } else if d == 3 {
        '3'
    } else if d == 4 {
        '4'
    } else if d == 5 {
        '5'
    } else if d == 6 {
        '6'
    } else if d == 7 {
        '7'
    } else if d == 8 {
        '8'
    } else {
        '9'
    }
}

/// `n` in decimal, without leading zeros.
pub open spec fn decimal(n: nat) -> Seq<char>
    decreases n,
{
    if n < 10 {
        seq![digit(n)]
    } else {
        decimal(n / 10).push(digit(n % 10))
    }
}

/// `n` in decimal, with a minus sign where it is negative.
pub open spec fn signed_decimal(n: i64) -> Seq<char> {
    if n < 0 {
        seq!['-'] + decimal((-n) as nat)
    } else {
        decimal(n as nat)
    }
}

/// The text of the decimal digit `d`.
fn digit_text(d: u64) -> (r: &'static str)
    requires
        d < 10,
    ensures
        r@ == seq![digit(d as nat)],
{
    proof {
        reveal_strlit("0");
        reveal_strlit("1");
        reveal_strlit("2");
        reveal_strlit("3");
        reveal_strlit("4");
        reveal_strlit("5");
        reveal_strlit("6");
        reveal_strlit("7");
        reveal_strlit("8");
        reveal_strlit("9");
    }
    let r = if d == 0 {
        "0"
    } else if d == 1 {
        "1"
    } else if d == 2 {
        "2"
    } else if d == 3 {
        "3"
    } else if d == 4 {
        "4"
    } else if d == 5 {
        "5"
    } else if d == 6 {
        "6"
    } else if d == 7 {
        "7"
    } else if d == 8 {
        "8"
    } else {
        "9"
    };
    assert(r@ =~= seq![digit(d as nat)]);
    r
}

/// Appends `n` in decimal.
pub fn write_unsigned(n: u64, out: &mut String)
    ensures
        final(out)@ == old(out)@ + decimal(n as nat),
    decreases n,
{
    if n >= 10 {
        write_unsigned(n / 10, out);
    }
    out.append(digit_text(n % 10));
    assert(final(out)@ =~= old(out)@ + decimal(n as nat)) by {
        if n >= 10 {
            assert(decimal(n as nat) == decimal((n / 10) as nat).push(digit((n % 10) as nat)));
        }
    }
}

/// Appends `n` in decimal, with a minus sign where it is negative.
pub fn write_signed(n: i64, out: &mut String)
    ensures
        final(out)@ == old(out)@ + signed_decimal(n),
{
    if n < 0 {
        proof {
            reveal_strlit("-");
        }
        out.append("-");
        let m: u64 = if n == i64::MIN {
            9223372036854775808u64
        } else {
            (-n) as u64
        };
        write_unsigned(m, out);
        assert(final(out)@ =~= old(out)@ + signed_decimal(n));
    } else {
        write_unsigned(n as u64, out);
    }
}

/// The compact JSON text of `v`.
pub open spec fn render(v: JsonValue) -> Seq<char>
    decreases v,
{
    match v {
        JsonValue::Null => "null"@,
        JsonValue::Bool(b) => if b {
            "true"@
        } else {
            "false"@
        },
        JsonValue::UInt(n) => decimal(n as nat),
        JsonValue::Int(n) => signed_decimal(n),
        JsonValue::Decimal(t) => t@,
        JsonValue::Str(s) => json_quoted(s@),
        JsonValue::Array(items) => "["@ + render_items(items@) + "]"@,
        JsonValue::Object(fields) => "{"@ + render_members(fields@) + "}"@,
    }
}

/// The texts of `items`, separated by commas.
pub open spec fn render_items(items: Seq<JsonValue>) -> Seq<char>
    decreases items,
{
    if items.len() == 0 {
        Seq::empty()
    } else if items.len() == 1 {
        render(items[0])
    } else {
        render_items(items.subrange(0, items.len() - 1)) + ","@ + render(items[items.len() - 1])
    }
}

/// The texts of the members `fields`, each as `"name":value`, separated by
/// commas.
pub open spec fn render_members(fields: Seq<(String, JsonValue)>) -> Seq<char>
    decreases fields,
{
    if fields.len() == 0 {
        Seq::empty()
    } else if fields.len() == 1 {
        json_quoted(fields[0].0@) + ":"@ + render(fields[0].1)
    } else {
        render_members(fields.subrange(0, fields.len() - 1)) + ","@ + json_quoted(
            fields[fields.len() - 1].0@,
        ) + ":"@ + render(fields[fields.len() - 1].1)
    }
}


/// Appends the compact JSON text of `v` to `out`.
pub fn write_json(v: &JsonValue, out: &mut String)
    ensures
        final(out)@ == old(out)@ + render(*v),
    decreases v,
{
    match v {
        JsonValue::Null => out.append("null"),
        JsonValue::Bool(b) => if *b {
            out.append("true")
        } else {
            out.append("false")
        },
        JsonValue::UInt(n) => write_unsigned(*n, out),
        JsonValue::Int(n) => write_signed(*n, out),
        JsonValue::Decimal(t) => out.append(t.as_str()),
        JsonValue::Str(s) => out.append(quote(s.as_str()).as_str()),
        JsonValue::Array(items) => {
            let ghost start = out@;
            out.append("[");
            let mut i: usize = 0;
            while i < items.len()
                invariant
                    i <= items@.len(),
                    *v == JsonValue::Array(*items),
                    out@ == start + "["@ + render_items(items@.subrange(0, i as int)),
                decreases items@.len() - i,
            {
                let ghost before = out@;
                proof {
                    let item = items@[i as int];
                    assert(decreases_to!(*v => (*v)->Array_0));
                    assert(decreases_to!(*items => items@));
                    assert(decreases_to!(items@ => item));
                }
                if i > 0 {
                    out.append(",");
                }
                write_json(&items[i], out);
                proof {
                    let prefix = items@.subrange(0, i + 1);
                    assert(prefix.subrange(0, prefix.len() - 1) == items@.subrange(0, i as int));
                    assert(prefix[prefix.len() - 1] == items@[i as int]);
                    if i == 0 {
                        assert(prefix[0] == items@[0]);
                    }
                }
                i = i + 1;
            }
            assert(items@.subrange(0, items@.len() as int) == items@);
            out.append("]");
        },
        JsonValue::Object(fields) => {
            let ghost start = out@;
            out.append("{");
            let mut i: usize = 0;
            while i < fields.len()
                invariant
                    i <= fields@.len(),
                    *v == JsonValue::Object(*fields),
                    out@ == start + "{"@ + render_members(fields@.subrange(0, i as int)),
                decreases fields@.len() - i,
            {
                proof {
                    let m = fields@[i as int];
                    assert(decreases_to!(*v => (*v)->Object_0));
                    assert(decreases_to!(*fields => fields@));
                    assert(decreases_to!(fields@ => m));
                    assert(decreases_to!(m => m.1));
                }
                if i > 0 {
                    out.append(",");
                }
                out.append(quote(fields[i].0.as_str()).as_str());
                out.append(":");
                write_json(&fields[i].1, out);
                proof {
                    let prefix = fields@.subrange(0, i + 1);
                    assert(prefix.subrange(0, prefix.len() - 1) == fields@.subrange(0, i as int));
                    assert(prefix[prefix.len() - 1] == fields@[i as int]);
                    if i == 0 {
                        assert(prefix[0] == fields@[0]);
                    }
                }
                i = i + 1;
            }
            assert(fields@.subrange(0, fields@.len() as int) == fields@);
            out.append("}");
        },
    }
}


/// A request to the daemon, without its id.
#[derive(Debug, PartialEq, Eq)]
pub enum DaemonRequest {
    Version,
    Shutdown,
    GetSupportedPlatforms { project_root: String },
    GetDevices,
    DeviceEnable,
    DeviceDisable,
    DeviceForward,
    DeviceUnforward,
    LaunchEmulator { emulator_id: String, cold_boot: bool },
    CreateEmulator { name: Option<String> },
    DevtoolsServe,
    LaunchApp { device_id: String, project_root: String },
    RestartApp {
        app_id: String,
        full_restart: bool,
        pause: bool,
        reason: Option<String>,
        debounce: Option<String>,
    },
    DetachApp { app_id: String },
    StopApp { app_id: String },
    CallServiceExtension {
        app_id: String,
        method_name: String,
        params: Option<Vec<(String, JsonValue)>>,
    },
}

/// The namespaced method name of `r`.
pub open spec fn method_of(r: DaemonRequest) -> Seq<char> {
    match r {
        DaemonRequest::Version => "daemon.version"@,
        DaemonRequest::Shutdown => "daemon.shutdown"@,
        DaemonRequest::GetSupportedPlatforms { .. } => "daemon.getSupportedPlatforms"@,
        DaemonRequest::GetDevices => "device.getDevices"@,
        DaemonRequest::DeviceEnable => "device.enable"@,
        DaemonRequest::DeviceDisable => "device.disable"@,
        DaemonRequest::DeviceForward => "device.forward"@,
        DaemonRequest::DeviceUnforward => "device.unforward"@,
        DaemonRequest::LaunchEmulator { .. } => "emulator.launch"@,
        DaemonRequest::CreateEmulator { .. } => "emulator.create"@,
        DaemonRequest::DevtoolsServe => "devtools.serve"@,
        DaemonRequest::LaunchApp { .. } => "app.launch"@,
        DaemonRequest::RestartApp { .. } => "app.restart"@,
        DaemonRequest::DetachApp { .. } => "app.detach"@,
        DaemonRequest::StopApp { .. } => "app.stop"@,
        DaemonRequest::CallServiceExtension { .. } => "app.callServiceExtension"@,
    }
}

pub open spec fn flag_text(b: bool) -> Seq<char> {
    if b {
        "true"@
    } else {
        "false"@
    }
}

pub open spec fn optional_text(t: Option<String>) -> Seq<char> {
    match t {
        Some(s) => json_quoted(s@),
        None => "null"@,
    }
}

/// The JSON text of the parameters of `r`, where it takes any.
pub open spec fn params_of(r: DaemonRequest) -> Option<Seq<char>> {
    match r {
        DaemonRequest::GetSupportedPlatforms { project_root } => Some(
            "{\"projectRoot\":"@ + json_quoted(project_root@) + "}"@,
        ),
        DaemonRequest::LaunchEmulator { emulator_id, cold_boot } => Some(
            "{\"emulatorId\":"@ + json_quoted(emulator_id@) + ",\"coldBoot\":"@ + flag_text(
                cold_boot,
            ) + "}"@,
        ),
        DaemonRequest::CreateEmulator { name } => Some(
            "{\"name\":"@ + optional_text(name) + "}"@,
        ),
        DaemonRequest::LaunchApp { device_id, project_root } => Some(
            "{\"deviceId\":"@ + json_quoted(device_id@) + ",\"projectRoot\":"@ + json_quoted(
                project_root@,
            ) + "}"@,
        ),
        DaemonRequest::RestartApp { app_id, full_restart, pause, reason, debounce } => Some(
            "{\"appId\":"@ + json_quoted(app_id@) + ",\"fullRestart\":"@ + flag_text(full_restart)
                + ",\"pause\":"@ + flag_text(pause) + ",\"reason\":"@ + optional_text(reason)
                + ",\"debounce\":"@ + optional_text(debounce) + "}"@,
        ),
        DaemonRequest::DetachApp { app_id } => Some(
            "{\"appId\":"@ + json_quoted(app_id@) + "}"@,
        ),
        DaemonRequest::StopApp { app_id } => Some("{\"appId\":"@ + json_quoted(app_id@) + "}"@),
        DaemonRequest::CallServiceExtension { app_id, method_name, params } => Some(
            "{\"appId\":"@ + json_quoted(app_id@) + ",\"methodName\":"@ + json_quoted(
                method_name@,
            ) + ",\"params\":"@ + match params {
                Some(fields) => "{"@ + render_members(fields@) + "}"@,
                None => "null"@,
            } + "}"@,
        ),
        _ => None,
    }
}

/// The JSON object of request `r` with id `id`: its method, its id, and its
/// parameters where it takes any.
pub open spec fn request_text(id: u64, r: DaemonRequest) -> Seq<char> {
    "{\"method\":\""@ + method_of(r) + "\",\"id\":"@ + decimal(id as nat) + match params_of(r) {
        Some(p) => ",\"params\":"@ + p,
        None => Seq::empty(),
    } + "}"@
}

impl DaemonRequest {
    /// The namespaced method name.
    pub fn method(&self) -> (r: &'static str)
        ensures
            r@ == method_of(*self),
    {
        match self {
            DaemonRequest::Version => "daemon.version",
            DaemonRequest::Shutdown => "daemon.shutdown",
            DaemonRequest::GetSupportedPlatforms { .. } => "daemon.getSupportedPlatforms",
            DaemonRequest::GetDevices => "device.getDevices",
            DaemonRequest::DeviceEnable => "device.enable",
            DaemonRequest::DeviceDisable => "device.disable",
            DaemonRequest::DeviceForward => "device.forward",
            DaemonRequest::DeviceUnforward => "device.unforward",
            DaemonRequest::LaunchEmulator { .. } => "emulator.launch",
            DaemonRequest::CreateEmulator { .. } => "emulator.create",
            DaemonRequest::DevtoolsServe => "devtools.serve",
            DaemonRequest::LaunchApp { .. } => "app.launch",
            DaemonRequest::RestartApp { .. } => "app.restart",
            DaemonRequest::DetachApp { .. } => "app.detach",
            DaemonRequest::StopApp { .. } => "app.stop",
            DaemonRequest::CallServiceExtension { .. } => "app.callServiceExtension",
        }
    }
}

fn write_flag(b: bool, out: &mut String)
    ensures
        final(out)@ == old(out)@ + flag_text(b),
{
    if b {
        out.append("true")
    } else {
        out.append("false")
    }
}

fn write_optional(t: &Option<String>, out: &mut String)
    ensures
        final(out)@ == old(out)@ + optional_text(*t),
{
    match t {
        Some(s) => out.append(quote(s.as_str()).as_str()),
        None => out.append("null"),
    }
}

fn write_quoted(s: &String, out: &mut String)
    ensures
        final(out)@ == old(out)@ + json_quoted(s@),
{
    out.append(quote(s.as_str()).as_str());
}

/// Appends the parameters of `r`, where it takes any, and answers whether it
/// did.
fn write_params(r: &DaemonRequest, out: &mut String) -> (wrote: bool)
    ensures
        match params_of(*r) {
            Some(p) => wrote && final(out)@ == old(out)@ + p,
            None => !wrote && final(out)@ == old(out)@,
        },
{
    match r {
        DaemonRequest::GetSupportedPlatforms { project_root } => {
            out.append("{\"projectRoot\":");
            write_quoted(project_root, out);
            out.append("}");
            true
        },
        DaemonRequest::LaunchEmulator { emulator_id, cold_boot } => {
            out.append("{\"emulatorId\":");
            write_quoted(emulator_id, out);
            out.append(",\"coldBoot\":");
            write_flag(*cold_boot, out);
            out.append("}");
            true
        },
        DaemonRequest::CreateEmulator { name } => {
            out.append("{\"name\":");
            write_optional(name, out);
            out.append("}");
            true
        },
        DaemonRequest::LaunchApp { device_id, project_root } => {
            out.append("{\"deviceId\":");
            write_quoted(device_id, out);
            out.append(",\"projectRoot\":");
            write_quoted(project_root, out);
            out.append("}");
            true
        },
        DaemonRequest::RestartApp { app_id, full_restart, pause, reason, debounce } => {
            out.append("{\"appId\":");
            write_quoted(app_id, out);
            out.append(",\"fullRestart\":");
            write_flag(*full_restart, out);
            out.append(",\"pause\":");
            write_flag(*pause, out);
            out.append(",\"reason\":");
            write_optional(reason, out);
            out.append(",\"debounce\":");
            write_optional(debounce, out);
            out.append("}");
            true
        },
        DaemonRequest::DetachApp { app_id } => {
            out.append("{\"appId\":");
            write_quoted(app_id, out);
            out.append("}");
            true
        },
        DaemonRequest::StopApp { app_id } => {
            out.append("{\"appId\":");
            write_quoted(app_id, out);
            out.append("}");
            true
        },
        DaemonRequest::CallServiceExtension { app_id, method_name, params } => {
            out.append("{\"appId\":");
            write_quoted(app_id, out);
            out.append(",\"methodName\":");
            write_quoted(method_name, out);
            out.append(",\"params\":");
            match params {
                Some(fields) => write_members(fields, out),
                None => out.append("null"),
            }
            out.append("}");
            true
        },
        _ => false,
    }
}

/// Appends the JSON object with members `fields`.
fn write_members(fields: &Vec<(String, JsonValue)>, out: &mut String)
    ensures
        final(out)@ == old(out)@ + "{"@ + render_members(fields@) + "}"@,
{
    let ghost start = out@;
    out.append("{");
    let mut i: usize = 0;
    while i < fields.len()
        invariant
            i <= fields@.len(),
            out@ == start + "{"@ + render_members(fields@.subrange(0, i as int)),
        decreases fields@.len() - i,
    {
        if i > 0 {
            out.append(",");
        }
        out.append(quote(fields[i].0.as_str()).as_str());
        out.append(":");
        write_json(&fields[i].1, out);
        proof {
            let prefix = fields@.subrange(0, i + 1);
            assert(prefix.subrange(0, prefix.len() - 1) == fields@.subrange(0, i as int));
            assert(prefix[prefix.len() - 1] == fields@[i as int]);
            if i == 0 {
                assert(prefix[0] == fields@[0]);
            }
        }
        i = i + 1;
    }
    assert(fields@.subrange(0, fields@.len() as int) == fields@);
    out.append("}");
}

/// The JSON object of request `req` with id `id`.
pub fn encode_request(id: u64, req: &DaemonRequest) -> (r: String)
    ensures
        r@ == request_text(id, *req),
{
    let mut out = String::new();
    out.append("{\"method\":\"");
    out.append(req.method());
    out.append("\",\"id\":");
    write_unsigned(id, &mut out);
    let mut params = String::new();
    if write_params(req, &mut params) {
        out.append(",\"params\":");
        out.append(params.as_str());
    }
    out.append("}");
    out
}

/// The line that carries request `req` with id `id`: a JSON array that holds
/// the request alone, and a newline.
pub fn frame_request(id: u64, req: &DaemonRequest) -> (r: String)
    ensures
        r@ == "["@ + request_text(id, *req) + "]\n"@,
{
    let mut out = String::new();
    out.append("[");
    out.append(encode_request(id, req).as_str());
    out.append("]\n");
    out
}

} // verus!
