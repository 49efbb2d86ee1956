use memospot::config::default_document;
use memospot::config::parse_config;
use memospot::config::serialize_config;
use memospot::config::ConfigDocument;
use memospot::errors::BootError;
use memospot::text::parse_u16;
use memospot::text::u16_to_dec;

fn sample_document() -> ConfigDocument {
    ConfigDocument {
        mode: "demo".to_string(),
        addr: "0.0.0.0".to_string(),
        port: 8080,
        telemetry: true,
        working_dir: Some("~/memos assets".to_string()),
        env: vec![
            ("a".to_string(), "b".to_string()),
            ("X".to_string(), "y=z".to_string()),
        ],
    }
}

#[test]
fn default_document_fields() {
    let d = default_document();
    assert_eq!(d.mode, "prod");
    assert_eq!(d.addr, "127.0.0.1");
    assert_eq!(d.port, 0);
    assert!(!d.telemetry);
    assert!(d.working_dir.is_none());
    assert!(d.env.is_empty());
}

#[test]
fn serialize_default_exact() {
    let text = serialize_config(&default_document());
    assert_eq!(
        text,
        "memos.mode=prod\nmemos.addr=127.0.0.1\nmemos.port=0\nmemos.telemetry=false\n"
    );
}

#[test]
fn roundtrip_full_document() {
    let doc = sample_document();
    let text = serialize_config(&doc);
    let back = parse_config(&text).expect("round trip must parse");
    assert_eq!(back.mode, doc.mode);
    assert_eq!(back.addr, doc.addr);
    assert_eq!(back.port, doc.port);
    assert_eq!(back.telemetry, doc.telemetry);
    assert_eq!(back.working_dir, doc.working_dir);
    assert_eq!(back.env, doc.env);
}

#[test]
fn roundtrip_without_optional_fields() {
    let doc = ConfigDocument {
        mode: "prod".to_string(),
        addr: "127.0.0.1".to_string(),
        port: 0,
        telemetry: false,
        working_dir: None,
        env: Vec::new(),
    };
    let text = serialize_config(&doc);
    let back = parse_config(&text).expect("round trip must parse");
    assert_eq!(back.mode, doc.mode);
    assert_eq!(back.working_dir, None);
    assert!(back.env.is_empty());
}

#[test]
fn malformed_document_is_parse_error() {
    assert_eq!(parse_config("nonsense").unwrap_err(), BootError::ConfigParse);
    assert_eq!(
        parse_config("memos.mode=prod\n").unwrap_err(),
        BootError::ConfigParse
    );
    assert_eq!(
        parse_config("memos.mode=prod\nmemos.addr=a\nmemos.port=70000\nmemos.telemetry=false\n")
            .unwrap_err(),
        BootError::ConfigParse
    );
    assert_eq!(
        parse_config("memos.mode=prod\nmemos.addr=a\nmemos.port=1\nmemos.telemetry=maybe\n")
            .unwrap_err(),
        BootError::ConfigParse
    );
}

#[test]
fn reset_then_load_yields_default() {
    let garbage = "memos.mode=prod\nmemos.addr";
    assert!(parse_config(garbage).is_err());
    let reset_text = serialize_config(&default_document());
    let loaded = parse_config(&reset_text).expect("default must load");
    assert_eq!(loaded.mode, "prod");
    assert_eq!(loaded.addr, "127.0.0.1");
    assert_eq!(loaded.port, 0);
    assert!(!loaded.telemetry);
    assert!(loaded.working_dir.is_none());
    assert!(loaded.env.is_empty());
}

#[test]
fn parse_exact_text() {
    let doc = parse_config(
        "memos.mode=demo\nmemos.addr=0.0.0.0\nmemos.port=5230\nmemos.telemetry=true\nmemos.working_dir=/srv\nmemos.env.FOO=bar\n",
    )
    .expect("well-formed text must parse");
    assert_eq!(doc.mode, "demo");
    assert_eq!(doc.addr, "0.0.0.0");
    assert_eq!(doc.port, 5230);
    assert!(doc.telemetry);
    assert_eq!(doc.working_dir.as_deref(), Some("/srv"));
    assert_eq!(doc.env, vec![("FOO".to_string(), "bar".to_string())]);
}

#[test]
fn decimal_rendering_and_parsing() {
    assert_eq!(u16_to_dec(0), "0");
    assert_eq!(u16_to_dec(5230), "5230");
    assert_eq!(u16_to_dec(65535), "65535");
    assert_eq!(parse_u16("65535"), Some(65535));
    assert_eq!(parse_u16("0"), Some(0));
    assert_eq!(parse_u16("65536"), None);
    assert_eq!(parse_u16("007"), None);
    assert_eq!(parse_u16(""), None);
    assert_eq!(parse_u16("12a"), None);
}

#[test]
fn error_labels() {
    assert_eq!(BootError::ConfigParse.label(), "malformed configuration document");
    assert_eq!(BootError::Filesystem.label(), "filesystem not writable");
    assert_eq!(
        BootError::ConfigWrite.label(),
        "failed to write configuration document"
    );
    assert_eq!(BootError::PortExhaustion.label(), "no free port found");
    assert_eq!(BootError::ProcessSpawn.label(), "failed to spawn server process");
    assert_eq!(
        BootError::WebviewUnavailable.label(),
        "webview runtime unavailable"
    );
}
