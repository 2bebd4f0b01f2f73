use lazyflutter::json::JsonValue;
use lazyflutter::protocol::{
    Device, DeviceCapabilities, DeviceDisableResponse, DeviceEnableResponse, DeviceForwardResponse,
    DeviceUnforwardResponse, DetachAppResponse, Emulator, EmulatorCreateResponse,
    EmulatorLaunchResponse, GetDevicesResponse, GetEmulatorsResponse, GetSupportedPlatformsResponse,
    GetSupportedPlatformsResult, RestartAppResponse, RestartAppResult, ServeDevToolsResponse,
    ServeDevToolsResult, ShutdownResponse, StopAppResponse, VersionResponse,
};
use lazyflutter::request::{encode_request, frame_request, DaemonRequest};

fn model(v: &serde_json::Value) -> JsonValue {
    match v {
        serde_json::Value::Null => JsonValue::Null,
        serde_json::Value::Bool(b) => JsonValue::Bool(*b),
        serde_json::Value::Number(n) => match (n.as_u64(), n.as_i64()) {
            (Some(u), _) => JsonValue::UInt(u),
            (None, Some(i)) => JsonValue::Int(i),
            _ => JsonValue::Decimal(n.to_string()),
        },
        serde_json::Value::String(s) => JsonValue::Str(s.clone()),
        serde_json::Value::Array(a) => JsonValue::Array(a.iter().map(model).collect()),
        serde_json::Value::Object(o) => {
            JsonValue::Object(o.iter().map(|(k, v)| (k.clone(), model(v))).collect())
        }
    }
}

fn parse(text: &str) -> JsonValue {
    model(&serde_json::from_str::<serde_json::Value>(text).unwrap())
}

#[test]
fn daemon_version() {
    let serialized = encode_request(1, &DaemonRequest::Version);
    assert_eq!(serialized, r#"{"method":"daemon.version","id":1}"#);
}

#[test]
fn daemon_shutdown() {
    let serialized = encode_request(1, &DaemonRequest::Shutdown);
    assert_eq!(serialized, r#"{"method":"daemon.shutdown","id":1}"#);
}

#[test]
fn daemon_get_supported_platforms() {
    let method = DaemonRequest::GetSupportedPlatforms {
        project_root: String::from("/home/username/Projects/flutter"),
    };
    let serialized = encode_request(1, &method);
    assert_eq!(
        serialized,
        r#"{"method":"daemon.getSupportedPlatforms","id":1,"params":{"projectRoot":"/home/username/Projects/flutter"}}"#
    );
}

#[test]
fn device_get_devices() {
    let serialized = encode_request(1, &DaemonRequest::GetDevices);
    assert_eq!(serialized, r#"{"method":"device.getDevices","id":1}"#);
}

#[test]
fn device_enable() {
    let serialized = encode_request(1, &DaemonRequest::DeviceEnable);
    assert_eq!(serialized, r#"{"method":"device.enable","id":1}"#);
}

#[test]
fn device_disable() {
    let serialized = encode_request(1, &DaemonRequest::DeviceDisable);
    assert_eq!(serialized, r#"{"method":"device.disable","id":1}"#);
}

#[test]
fn device_forward() {
    let serialized = encode_request(1, &DaemonRequest::DeviceForward);
    assert_eq!(serialized, r#"{"method":"device.forward","id":1}"#);
}

#[test]
fn device_unforward() {
    let serialized = encode_request(1, &DaemonRequest::DeviceUnforward);
    assert_eq!(serialized, r#"{"method":"device.unforward","id":1}"#);
}

#[test]
fn launch_emulator() {
    let method = DaemonRequest::LaunchEmulator {
        emulator_id: String::from("emulator-5554"),
        cold_boot: false,
    };
    let serialized = encode_request(1, &method);
    assert_eq!(
        serialized,
        r#"{"method":"emulator.launch","id":1,"params":{"emulatorId":"emulator-5554","coldBoot":false}}"#
    );
}

#[test]
fn create_emulator() {
    let method = DaemonRequest::CreateEmulator { name: None };
    let serialized = encode_request(1, &method);
    assert_eq!(serialized, r#"{"method":"emulator.create","id":1,"params":{"name":null}}"#);

    let method = DaemonRequest::CreateEmulator { name: Some(String::from("test")) };
    let serialized = encode_request(1, &method);
    assert_eq!(serialized, r#"{"method":"emulator.create","id":1,"params":{"name":"test"}}"#);
}

#[test]
fn devtools_serve() {
    let serialized = encode_request(1, &DaemonRequest::DevtoolsServe);
    assert_eq!(serialized, r#"{"method":"devtools.serve","id":1}"#);
}

#[test]
fn restart_app() {
    let method = DaemonRequest::RestartApp {
        app_id: String::from("com.example.app"),
        full_restart: false,
        pause: false,
        reason: None,
        debounce: None,
    };
    let serialized = encode_request(1, &method);
    assert_eq!(
        serialized,
        r#"{"method":"app.restart","id":1,"params":{"appId":"com.example.app","fullRestart":false,"pause":false,"reason":null,"debounce":null}}"#
    );
}

#[test]
fn detach_app() {
    let method = DaemonRequest::DetachApp { app_id: String::from("com.example.app") };
    let serialized = encode_request(1, &method);
    assert_eq!(serialized, r#"{"method":"app.detach","id":1,"params":{"appId":"com.example.app"}}"#);
}

#[test]
fn stop_app() {
    let method = DaemonRequest::StopApp { app_id: String::from("com.example.app") };
    let serialized = encode_request(1, &method);
    assert_eq!(serialized, r#"{"method":"app.stop","id":1,"params":{"appId":"com.example.app"}}"#);
}

#[test]
fn call_service_extension() {
    let method = DaemonRequest::CallServiceExtension {
        app_id: String::from("com.example.app"),
        method_name: String::from("ext.flutter.debugPaint"),
        params: None,
    };
    let serialized = encode_request(1, &method);
    assert_eq!(
        serialized,
        r#"{"method":"app.callServiceExtension","id":1,"params":{"appId":"com.example.app","methodName":"ext.flutter.debugPaint","params":null}}"#
    );

    let params = match parse(r#"{"enabled":true}"#) {
        JsonValue::Object(fields) => fields,
        _ => panic!("not an object"),
    };
    let method = DaemonRequest::CallServiceExtension {
        app_id: String::from("com.example.app"),
        method_name: String::from("ext.flutter.debugPaint"),
        params: Some(params),
    };
    let serialized = encode_request(1, &method);
    assert_eq!(
        serialized,
        r#"{"method":"app.callServiceExtension","id":1,"params":{"appId":"com.example.app","methodName":"ext.flutter.debugPaint","params":{"enabled":true}}}"#
    );
}

#[test]
fn request_text_escapes_quotes_and_newlines() {
    let method = DaemonRequest::StopApp { app_id: String::from("a\"b\nc") };
    let serialized = encode_request(42, &method);
    assert_eq!(serialized, r#"{"method":"app.stop","id":42,"params":{"appId":"a\"b\nc"}}"#);
}

#[test]
fn request_frame_is_one_element_array_line() {
    let line = frame_request(18446744073709551614, &DaemonRequest::Version);
    assert_eq!(line, "[{\"method\":\"daemon.version\",\"id\":18446744073709551614}]\n");
}

#[test]
fn nested_params_render_compactly() {
    let params = match parse(r#"{"a":[1,-2,2.5,"x",null,false],"b":{}}"#) {
        JsonValue::Object(fields) => fields,
        _ => panic!("not an object"),
    };
    let method = DaemonRequest::CallServiceExtension {
        app_id: String::from("1"),
        method_name: String::from("m"),
        params: Some(params),
    };
    assert_eq!(
        encode_request(0, &method),
        r#"{"method":"app.callServiceExtension","id":0,"params":{"appId":"1","methodName":"m","params":{"a":[1,-2,2.5,"x",null,false],"b":{}}}}"#
    );
}

#[test]
fn verseion_response() {
    let json = r#"{"id": 1, "result": "0.6.1"}"#;
    let response = VersionResponse::from_json(&parse(json)).unwrap();
    assert_eq!(response, VersionResponse { id: 1, result: "0.6.1".to_string() });
}

#[test]
fn shutdown_response() {
    let json = r#"{"id": 1}"#;
    let response = ShutdownResponse::from_json(&parse(json)).unwrap();
    assert_eq!(response, ShutdownResponse { id: 1 });
}

#[test]
fn get_supported_platforms_response() {
    let json = r#"{"id":1,"result":{"platforms":["linux","macos","windows","ios","android","web"]}}"#;
    let response = GetSupportedPlatformsResponse::from_json(&parse(json)).unwrap();
    assert_eq!(
        response,
        GetSupportedPlatformsResponse {
            id: 1,
            result: GetSupportedPlatformsResult {
                platforms: vec![
                    "linux".to_string(),
                    "macos".to_string(),
                    "windows".to_string(),
                    "ios".to_string(),
                    "android".to_string(),
                    "web".to_string(),
                ],
            },
        }
    );
}

#[test]
fn get_devices_response() {
    let json = r#"{"id":1,"result":[{"id":"linux","name":"Linux","platform":"linux","emulator":false,"category":"mobile","platformType":"desktop","ephemeral":false,"capabilities":{"hotReload":true,"hotRestart":true,"screenshot":true,"fastStart":true,"flutterExit":true,"hardwareRendering":true,"startPaused":false},"sdk":"Flutter (Channel stable, 2.0.3, on Linux, locale en_US.UTF-8)","emulatorId":"linux"}]}"#;
    let response = GetDevicesResponse::from_json(&parse(json)).unwrap();
    assert_eq!(
        response,
        GetDevicesResponse {
            id: 1,
            result: vec![Device {
                id: "linux".to_string(),
                name: "Linux".to_string(),
                platform: "linux".to_string(),
                emulator: false,
                category: "mobile".to_string(),
                platform_type: "desktop".to_string(),
                ephemeral: false,
                emulator_id: "linux".to_string(),
                sdk: "Flutter (Channel stable, 2.0.3, on Linux, locale en_US.UTF-8)".to_string(),
                capabilities: DeviceCapabilities {
                    hot_reload: true,
                    hot_restart: true,
                    screenshot: true,
                    fast_start: true,
                    flutter_exit: true,
                    hardware_rendering: true,
                    start_paused: false,
                },
            }],
        }
    );
}

#[test]
fn device_enable_response() {
    let json = r#"{"id":1}"#;
    let response = DeviceEnableResponse::from_json(&parse(json)).unwrap();
    assert_eq!(response, DeviceEnableResponse { id: 1 });
}

#[test]
fn device_disable_response() {
    let json = r#"{"id":1}"#;
    let response = DeviceDisableResponse::from_json(&parse(json)).unwrap();
    assert_eq!(response, DeviceDisableResponse { id: 1 });
}

#[test]
fn device_forward_response() {
    let json = r#"{"id":1}"#;
    let response = DeviceForwardResponse::from_json(&parse(json)).unwrap();
    assert_eq!(response, DeviceForwardResponse { id: 1 });
}

#[test]
fn device_unforward_response() {
    let json = r#"{"id":1}"#;
    let response = DeviceUnforwardResponse::from_json(&parse(json)).unwrap();
    assert_eq!(response, DeviceUnforwardResponse { id: 1 });
}

#[test]
fn get_emulators_response() {
    let json = r#"{"id":1,"result":[{"id":"android","name":"Android SDK built for x86","category":"mobile","platformType":"android"}]}"#;
    let response = GetEmulatorsResponse::from_json(&parse(json)).unwrap();
    assert_eq!(
        response,
        GetEmulatorsResponse {
            id: 1,
            result: vec![Emulator {
                id: "android".to_string(),
                name: "Android SDK built for x86".to_string(),
                category: "mobile".to_string(),
                platform_type: "android".to_string(),
            }],
        }
    );
}

#[test]
fn emulator_launch_response() {
    let json = r#"{"id":1}"#;
    let response = EmulatorLaunchResponse::from_json(&parse(json)).unwrap();
    assert_eq!(response, EmulatorLaunchResponse { id: 1 });
}

#[test]
fn emulator_create_response() {
    let json = r#"{"id":1}"#;
    let response = EmulatorCreateResponse::from_json(&parse(json)).unwrap();
    assert_eq!(response, EmulatorCreateResponse { id: 1 });
}

#[test]
fn serve_dev_tools_response() {
    let json = r#"{"id":1,"result":{"host":"somehost","port":"1234"}}"#;
    let response = ServeDevToolsResponse::from_json(&parse(json)).unwrap();
    assert_eq!(
        response,
        ServeDevToolsResponse {
            id: 1,
            result: ServeDevToolsResult {
                host: Some("somehost".to_string()),
                port: Some("1234".to_string())
            }
        }
    )
}

#[test]
fn restart_app_response() {
    let json = r#"{"id":1,"result":{"code":0,"message":"Success"}}"#;
    let response = RestartAppResponse::from_json(&parse(json)).unwrap();
    assert_eq!(
        response,
        RestartAppResponse {
            id: 1,
            result: RestartAppResult { code: 0, message: "Success".to_string() }
        }
    )
}

#[test]
fn stop_app_response() {
    let json = r#"{"id":1,"result":true}"#;
    let response = StopAppResponse::from_json(&parse(json)).unwrap();
    assert_eq!(response, StopAppResponse { id: 1, result: true })
}

#[test]
fn detach_app_response() {
    let json = r#"{"id":1,"result":true}"#;
    let response = DetachAppResponse::from_json(&parse(json)).unwrap();
    assert_eq!(response, DetachAppResponse { id: 1, result: true })
}

#[test]
fn responses_without_id_are_refused() {
    assert_eq!(ShutdownResponse::from_json(&parse(r#"{"result":1}"#)), None);
    assert_eq!(VersionResponse::from_json(&parse(r#"{"id":1}"#)), None);
    assert_eq!(StopAppResponse::from_json(&parse(r#"{"id":1,"result":"yes"}"#)), None);
    assert_eq!(ShutdownResponse::from_json(&parse(r#"{"id":4294967296}"#)), None);
}

#[test]
fn request_text_escapes_control_characters() {
    let method = DaemonRequest::StopApp { app_id: String::from("a\u{1f}\t\\é") };
    assert_eq!(
        encode_request(7, &method),
        "{\"method\":\"app.stop\",\"id\":7,\"params\":{\"appId\":\"a\\u001f\\t\\\\é\"}}"
    );
}

#[test]
fn negative_and_extreme_numbers_render_in_decimal() {
    let params = vec![
        ("min".to_string(), JsonValue::Int(i64::MIN)),
        ("max".to_string(), JsonValue::UInt(u64::MAX)),
        ("zero".to_string(), JsonValue::UInt(0)),
    ];
    let method = DaemonRequest::CallServiceExtension {
        app_id: String::from("1"),
        method_name: String::from("m"),
        params: Some(params),
    };
    assert_eq!(
        encode_request(10, &method),
        r#"{"method":"app.callServiceExtension","id":10,"params":{"appId":"1","methodName":"m","params":{"min":-9223372036854775808,"max":18446744073709551615,"zero":0}}}"#
    );
}
