use platypus_core::serial::{parse_charge, parse_response, ChargeStatus, Command, Response};

#[test]
fn encodes_commands() {
    assert_eq!(Command::Model.encode(), "MDL\r");
    assert_eq!(Command::Version.encode(), "VER\r");
    assert_eq!(Command::GetVolume.encode(), "VOL\r");
    assert_eq!(Command::SetVolume(9).encode(), "VOL,9\r");
    assert_eq!(Command::SetSquelch(3).encode(), "SQL,3\r");
    assert_eq!(Command::GetLocation.encode(), "LCR\r");
    assert_eq!(
        Command::SetLocation { lat: "41.582".into(), lon: "-85.834".into(), range_mi: "15".into() }.encode(),
        "LCR,41.582,-85.834,15\r"
    );
    assert_eq!(Command::PushKey { code: "H".into(), mode: "P".into() }.encode(), "KEY,H,P\r");
    assert_eq!(Command::ChargeStatus.encode(), "GCS\r");
    assert_eq!(Command::KeepAlive.encode(), "KAL\r");
    assert_eq!(Command::PowerOff.encode(), "POF\r");
}

#[test]
fn keep_alive_expects_no_response() {
    assert!(!Command::KeepAlive.expects_response());
    assert!(Command::Model.expects_response());
}

#[test]
fn parses_scalar_responses() {
    assert_eq!(parse_response("MDL,SDS150GBT\r"), Response::Model("SDS150GBT".into()));
    assert_eq!(parse_response("VER,Version 1.10.00\r"), Response::Version("Version 1.10.00".into()));
    assert_eq!(parse_response("VOL,7\r"), Response::Volume(7));
    assert_eq!(parse_response("SQL,0\r"), Response::Squelch(0));
    // Bare echo = set-ack; `CMD,OK` = action-ack.
    assert_eq!(parse_response("VOL\r"), Response::Ack);
    assert_eq!(parse_response("KEY,OK\r"), Response::Ack);
    assert_eq!(parse_response("POF,OK\r"), Response::Ack);
    assert_eq!(parse_response("LCR,OK\r"), Response::Ack);
}

#[test]
fn parses_location() {
    assert_eq!(
        parse_response("LCR,41.582,-85.834,15\r"),
        Response::Location { lat: "41.582".into(), lon: "-85.834".into(), range_mi: "15".into() }
    );
    // Round-trips against the encoder (the radio echoes the same LCR line back).
    let cmd = Command::SetLocation { lat: "45".into(), lon: "-100".into(), range_mi: "25".into() };
    assert_eq!(
        parse_response(&cmd.encode()),
        Response::Location { lat: "45".into(), lon: "-100".into(), range_mi: "25".into() }
    );
}

#[test]
fn parses_charge_status() {
    let r = parse_response("GCS,CST=4,VOLT=4184mV:100%,CURR=0000mA,TEMP= 27.65C\n");
    assert_eq!(
        r,
        Response::Charge(ChargeStatus {
            state: 4,
            millivolts: 4184,
            percent: 100,
            current_ma: 0,
            temp_c: "27.65".into(),
        })
    );
    // Discharging = negative current.
    let Response::Charge(c) = parse_response("GCS,CST=6,VOLT=3900mV:64%,CURR=-250mA,TEMP=30.0C\n") else {
        panic!("expected charge");
    };
    assert_eq!(c.current_ma, -250);
    assert_eq!(c.percent, 64);
}

#[test]
fn status_and_unknown_fall_back() {
    // STS keeps its raw fields.
    let Response::Status(f) = parse_response("STS,011000,Line1 text,0,Line2,1\r") else {
        panic!("expected status");
    };
    assert_eq!(f.first().map(String::as_str), Some("011000"));
    assert_eq!(f.len(), 5);
    // An unmodeled command → Raw, never a panic.
    assert_eq!(
        parse_response("XYZ,a,b\r"),
        Response::Raw { command: "XYZ".into(), fields: vec!["a".into(), "b".into()] }
    );
}

#[test]
fn unreadable_levels_and_charge_bodies_fall_back_to_raw() {
    assert_eq!(
        parse_response("VOL,OK\r"),
        Response::Raw { command: "VOL".into(), fields: vec!["OK".into()] }
    );
    assert_eq!(
        parse_response("VOL,300\r"),
        Response::Raw { command: "VOL".into(), fields: vec!["300".into()] }
    );
    // A field without `=` makes the whole GCS body unreadable.
    assert_eq!(
        parse_response("GCS,CST=4,junk\r"),
        Response::Raw { command: "GCS".into(), fields: vec!["CST=4".into(), "junk".into()] }
    );
    // A missing value (no TEMP) too.
    assert_eq!(parse_charge("CST=4,VOLT=4184mV:100%,CURR=0000mA"), None);
    // The last of a repeated key wins; unknown keys are ignored.
    let c = parse_charge("CST=1,CST=2,X=y,VOLT=1mV:2%,CURR=+3mA,TEMP=4C").unwrap();
    assert_eq!((c.state, c.millivolts, c.percent, c.current_ma, c.temp_c.as_str()), (2, 1, 2, 3, "4"));
    // Surrounding whitespace (including the terminator) is trimmed.
    assert_eq!(parse_response("  MDL,X \r\n"), Response::Model("X".into()));
    assert_eq!(parse_response(""), Response::Raw { command: "".into(), fields: vec![] });
}
