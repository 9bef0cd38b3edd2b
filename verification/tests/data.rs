//! The data service, its client and server, and command-line options.

use coap_lite::{CoapOption, MessageClass, MessageType, Packet, RequestType, ResponseType};
use schc_coreconf::application::{
    canonical_path, discovery_response, normalize_resource_path, response_type_for,
    route_application, schema_lines, uri_path, write_response, ApplicationError, ApplicationStep,
};
use schc_coreconf::coap::CoapMessage;
use schc_coreconf::data_command::{
    data_help, delete_line, discovery_query, mutation_line, parse_data_command, serve_report,
    text_line, unknown_command_line, value_line, DataCommand, ServeProgress, ServeReport,
};
use schc_coreconf::data_options::{server_usage, usage, ClientOptions, ServerOptions};
use schc_coreconf::json::JsonValue;
use schc_coreconf::options::{endpoint_usage, Args};
use schc_coreconf::sid::{SidItem, SidModel};

fn model() -> SidModel {
    let item = |identifier: &str, sid: i64| SidItem { identifier: identifier.to_owned(), sid };
    SidModel {
        items: vec![
            item("/demo-data:config/threshold", 60005),
            item("/demo-data:config", 60001),
            item("/demo-data:config/enabled", 60003),
            item("/demo-data:config/count", 60002),
            item("/demo-data:config/name", 60004),
        ],
        lists: Vec::new(),
    }
}

#[test]
fn schema_is_sorted_and_filterable() {
    let model = model();
    let all = schema_lines(&model, None);
    assert_eq!(all, {
        let mut sorted = all.clone();
        sorted.sort();
        sorted
    });
    assert_eq!(all.len(), 5);
    assert!(all.iter().any(|line| line.contains("/demo-data:config/count")));
    let filtered = schema_lines(&model, Some("enabled"));
    assert_eq!(filtered.len(), 1);
    assert!(filtered[0].contains("/demo-data:config/enabled"));
}

fn discovery_request(method: RequestType, message_id: u16, token: &[u8]) -> Packet {
    let mut request = Packet::new();
    request.header.message_id = message_id;
    request.header.code = MessageClass::Request(method);
    request.header.set_type(MessageType::Confirmable);
    request.set_token(token.to_vec());
    request.add_option(CoapOption::UriPath, b".well-known".to_vec());
    request.add_option(CoapOption::UriPath, b"core".to_vec());
    request.add_option(CoapOption::UriQuery, b"d=0".to_vec());
    request
}

fn content_formats(packet: &Packet) -> Vec<u16> {
    packet
        .get_option(CoapOption::ContentFormat)
        .into_iter()
        .flatten()
        .map(|value| value.iter().fold(0_u16, |number, byte| number << 8 | u16::from(*byte)))
        .collect()
}

fn answer(resource: &str, request: &Packet) -> Packet {
    let datagram = request.to_bytes().expect("request bytes");
    match route_application(resource, &datagram).expect("route") {
        ApplicationStep::Respond(response) => {
            Packet::from_bytes(&write_response(&response).expect("response bytes"))
                .expect("response")
        }
        ApplicationStep::Forward(message) => panic!("forwarded {message:?}"),
    }
}

#[test]
fn discovery_response_matches_rustconf_contract() {
    let request = discovery_request(RequestType::Get, 0x3456, &[0xc1, 0xd2]);
    let response = answer("c", &request);
    assert_eq!(response.header.code, MessageClass::Response(ResponseType::Content));
    assert_eq!(response.header.get_type(), MessageType::Acknowledgement);
    assert_eq!(response.header.message_id, 0x3456);
    assert_eq!(response.get_token(), &[0xc1, 0xd2]);
    assert_eq!(content_formats(&response), vec![40]);
    assert_eq!(
        response.payload.as_slice(),
        b"</c>;rt=\"core.c.ds\";ct=140;ds=1029,</s>;rt=\"core.c.ev\";ct=142;obs"
    );
}

#[test]
fn discovery_rejects_non_get_methods() {
    let methods = [
        RequestType::Post,
        RequestType::Put,
        RequestType::Delete,
        RequestType::Fetch,
        RequestType::Patch,
        RequestType::IPatch,
    ];
    for (index, method) in (0_u8..).zip(methods) {
        let message_id = 0x1000 + u16::from(index);
        let token = [index, 0xa5];
        let request = discovery_request(method, message_id, &token);
        let response = answer("c", &request);
        assert_eq!(
            response.header.code,
            MessageClass::Response(ResponseType::MethodNotAllowed),
            "method {method:?}"
        );
        assert_eq!(response.header.get_type(), MessageType::Acknowledgement);
        assert_eq!(response.header.message_id, message_id);
        assert_eq!(response.get_token(), token);
        assert!(response.payload.is_empty());
        assert!(content_formats(&response).is_empty());
    }
}

#[test]
fn discovery_response_preserves_custom_resource_paths() {
    let request = discovery_request(RequestType::Get, 0x4567, &[0x01]);
    let response = answer("mgmt", &request);
    assert_eq!(content_formats(&response), vec![40]);
    assert_eq!(
        response.payload.as_slice(),
        b"</mgmt>;rt=\"core.c.ds\";ct=140;ds=1029,</mgmt/s>;rt=\"core.c.ev\";ct=142;obs"
    );
}

#[test]
fn other_paths_go_to_the_datastore() {
    let mut request = Packet::new();
    request.header.message_id = 77;
    request.header.code = MessageClass::Request(RequestType::Fetch);
    request.header.set_type(MessageType::Confirmable);
    request.set_token(vec![1, 2]);
    for segment in ["c", "demo-data:config", "count"] {
        request.add_option(CoapOption::UriPath, segment.as_bytes().to_vec());
    }
    let datagram = request.to_bytes().expect("request bytes");
    let ApplicationStep::Forward(message) = route_application("c", &datagram).expect("route") else {
        panic!("no forward");
    };
    assert_eq!(message.message_id(), 77);
    assert_eq!(uri_path(&message), "/c/demo-data:config/count");
    assert!(matches!(route_application("c", &[0xff]), Err(ApplicationError::Coap(_))));
}

#[test]
fn paths_are_normalised() {
    assert_eq!(normalize_resource_path("//mgmt/"), "mgmt");
    assert_eq!(normalize_resource_path("/"), "c");
    assert_eq!(canonical_path("demo-data:config"), "/demo-data:config");
    assert_eq!(canonical_path("/demo-data:config/count"), "/demo-data:config/count");
    assert_eq!(response_type_for(0), 2);
    assert_eq!(response_type_for(1), 1);
    assert_eq!(response_type_for(3), 0);
}

#[test]
fn unreadable_path_segments_are_left_out() {
    let message = CoapMessage::from_parts(
        1,
        0,
        1,
        9,
        Vec::new(),
        vec![
            schc_coreconf::coap::CoapOption::new(11, b"a".to_vec()),
            schc_coreconf::coap::CoapOption::new(11, vec![0xff]),
            schc_coreconf::coap::CoapOption::new(11, b"b".to_vec()),
        ],
        Vec::new(),
    )
    .expect("message");
    assert_eq!(uri_path(&message), "/a/b");
    assert_eq!(discovery_response("c", &message).message_id(), 9);
}

fn arguments(list: &[&str]) -> (Vec<String>, Vec<Result<(), String>>) {
    let texts: Vec<String> = list.iter().map(|argument| (*argument).to_owned()).collect();
    let addresses = texts
        .iter()
        .map(|text| match text.rsplit_once(':') {
            Some((host, port)) if port.parse::<u16>().is_ok() && host != "" => Ok(()),
            _ => Err("invalid socket address syntax".to_owned()),
        })
        .collect();
    (texts, addresses)
}

fn parse(list: &[&str]) -> Result<ServerOptions, String> {
    let (texts, addresses) = arguments(list);
    ServerOptions::parse_arguments(&texts, &addresses)
}

const REQUIRED: &[&str] = &["--sid", "model.sid", "--data", "data.json", "--bind", "[::1]:5683"];

#[test]
fn accepts_repeated_sid_ipv6_bind_and_default_path() {
    let options = parse(&[
        "--sid",
        "one.sid",
        "--sid",
        "two.sid",
        "--data",
        "data.json",
        "--bind",
        "[::1]:5683",
    ])
    .expect("options");
    assert_eq!(options.sid_paths.len(), 2);
    assert_eq!(options.bind, "[::1]:5683");
    assert_eq!(options.resource_path, "c");
    assert!(!options.help);
}

#[test]
fn accepts_custom_path() {
    let mut list = vec!["--path", "mgmt"];
    list.extend_from_slice(REQUIRED);
    let options = parse(&list).expect("options");
    assert_eq!(options.resource_path, "mgmt");
    assert_eq!(options.data_path, "data.json");
}

#[test]
fn rejects_missing_required_options() {
    for (flag, list) in [
        ("--sid", vec!["--data", "data.json", "--bind", "[::1]:5683"]),
        ("--data", vec!["--sid", "model.sid", "--bind", "[::1]:5683"]),
        ("--bind", vec!["--sid", "model.sid", "--data", "data.json"]),
    ] {
        let error = parse(&list).expect_err("missing required option");
        assert!(error.contains(flag), "{flag}: {error}");
    }
}

#[test]
fn rejects_missing_values_malformed_bind_duplicates_and_unknown() {
    let cases = [
        (&["--sid"][..], "missing value for --sid"),
        (&["--data"][..], "missing value for --data"),
        (&["--bind"][..], "missing value for --bind"),
        (&["--path"][..], "missing value for --path"),
        (&["--bind", "not-an-address"][..], "invalid --bind address not-an-address:"),
        (&["--data", "a", "--data", "b"][..], "duplicate --data option"),
        (
            &["--bind", "127.0.0.1:1", "--bind", "127.0.0.1:2"][..],
            "duplicate --bind option",
        ),
        (&["--path", "a", "--path", "b"][..], "duplicate --path option"),
        (&["--unknown"][..], "unknown argument --unknown; use --help"),
    ];
    for (list, expected) in cases {
        let error = parse(list).expect_err("invalid arguments");
        assert!(error == expected || error.starts_with(expected), "{error}");
    }
    assert_eq!(parse(&["--sid", "--data"]).expect_err("value"), "missing value for --sid");
}

#[test]
fn help_is_concise_and_lists_required_options() {
    assert!(usage().contains("--sid PATH"));
    assert!(usage().contains("--data PATH"));
    assert!(usage().contains("--bind ADDR"));
    assert!(usage().contains("[--path PATH]"));
    assert!(usage().len() < 150);
    assert_eq!(server_usage()[0], usage());
    assert!(parse(&["-h"]).expect("help").help);
}

#[test]
fn client_options_need_a_model_and_a_server() {
    let client = |list: &[&str]| {
        let (texts, addresses) = arguments(list);
        ClientOptions::parse(&texts, &addresses)
    };
    let options =
        client(&["--sid", "a", "--endpoint", "h:1", "--server", "h:2"]).expect("options");
    assert_eq!(options.server, "h:2");
    assert_eq!(options.resource_path, "c");
    assert_eq!(client(&["--sid", "a"]).expect_err("server"), "missing required --server ADDR");
    assert_eq!(client(&["--server", "h:1"]).expect_err("sid"), "missing required --sid PATH");
    assert_eq!(
        client(&["--endpoint", "h"]).expect_err("address"),
        "invalid --endpoint address h: invalid socket address syntax"
    );
    assert!(client(&["--help"]).expect("help").help);
    assert_eq!(client(&["--path"]).expect_err("value"), "missing value for --path");
}

#[test]
fn endpoint_options_are_complete_and_checked() {
    let endpoint = |list: &[&str]| {
        let (texts, addresses) = arguments(list);
        Args::parse(&texts, &addresses)
    };
    let complete = [
        "--link-bind",
        "127.0.0.1:1",
        "--link-peer",
        "127.0.0.1:2",
        "--tun-name",
        "tun0",
        "--tun-mtu",
        "+1500",
        "--once",
    ];
    let options = endpoint(&complete).expect("options").expect("no help");
    assert_eq!(options.tun_mtu, 1500);
    assert_eq!(options.device_id, "demo-device");
    assert_eq!(options.link_peer, "127.0.0.1:2");
    assert!(options.once && !options.debug);
    assert!(endpoint(&["--help"]).expect("help").is_none());
    let refusal = |list: &[&str]| endpoint(list).expect_err("refused");
    assert_eq!(refusal(&[]), "missing required --tun-name");
    assert_eq!(refusal(&["--tun-name", ""]), "--tun-name must not be empty");
    assert_eq!(
        refusal(&["--tun-name", "t", "--tun-mtu", "1279"]),
        "--tun-mtu must be at least 1280"
    );
    assert_eq!(refusal(&["--tun-name", "t"]), "missing required --link-bind");
    assert_eq!(
        refusal(&["--tun-name", "t", "--link-bind", "a:1"]),
        "missing required --link-peer"
    );
    assert!(refusal(&["--tun-mtu", "65536"]).starts_with("invalid --tun-mtu value: "));
    assert!(refusal(&["--tun-mtu", "x"]).starts_with("invalid --tun-mtu value: "));
    assert_eq!(refusal(&["--tun-mtu"]), "missing value for --tun-mtu");
    assert_eq!(refusal(&["--other"]), "unknown argument --other; use --help");
    assert_eq!(
        refusal(&["--link-bind", "nowhere"]),
        "invalid --link-bind address nowhere: invalid socket address syntax"
    );
    assert_eq!(endpoint_usage("core", true).len(), 14);
    assert_eq!(endpoint_usage("device", false).len(), 5);
}

#[test]
fn data_commands_are_read_by_their_first_word() {
    let command = |line: &str| parse_data_command(line);
    assert!(matches!(command("discover"), Ok(DataCommand::Discover(None))));
    assert!(matches!(command("schema  on "), Ok(DataCommand::Schema(Some(text))) if text == "on"));
    assert!(matches!(command("get /a b"), Ok(DataCommand::Get(path)) if path == "/a b"));
    assert!(matches!(command("fetch /a"), Ok(DataCommand::Fetch(path)) if path == "/a"));
    assert!(matches!(command("delete /a"), Ok(DataCommand::Delete(path)) if path == "/a"));
    assert!(matches!(command("reload now"), Ok(DataCommand::Reload)));
    assert!(matches!(command("help"), Ok(DataCommand::Help)));
    assert!(matches!(command("quit"), Ok(DataCommand::Quit)));
    assert!(matches!(command("gets x"), Ok(DataCommand::Unknown(word)) if word == "gets"));
    assert!(matches!(command(" get x"), Ok(DataCommand::Unknown(word)) if word.is_empty()));
    assert_eq!(command("get").expect_err("path"), "usage: get <path>");
    assert_eq!(command("set /a").expect_err("value"), "usage: set <path> <json-value>");
    assert!(command("set /a {").expect_err("JSON").starts_with("invalid JSON value: "));
    let Ok(DataCommand::Assign(path, value)) =
        command(r#"set /a {"b": [1, -2, true, null, "x"], "c": 18446744073709551615}"#)
    else {
        panic!("no assignment");
    };
    assert_eq!(path, "/a");
    let JsonValue::Object(members) = &value else {
        panic!("no object");
    };
    assert_eq!(members[0].0, "b");
    assert!(matches!(
        &members[0].1,
        JsonValue::Array(items) if matches!(items[1], JsonValue::Integer(-2))
    ));
    assert!(matches!(members[1].1, JsonValue::Integer(18446744073709551615)));
    assert!(matches!(
        command("set /a 1.5"),
        Ok(DataCommand::Assign(_, JsonValue::Decimal(spelling))) if spelling == "1.5"
    ));
}

#[test]
fn data_answers_are_single_lines_or_values() {
    let remote = |code: &str| ApplicationError::Remote {
        code: code.to_owned(),
        message: "gone".to_owned(),
    };
    assert_eq!(discovery_query(&None), "d=0");
    assert_eq!(discovery_query(&Some("x".to_owned())), "x");
    assert_eq!(unknown_command_line("foo"), "ERROR unknown command 'foo'; use help");
    assert_eq!(text_line(&Ok("</c>".to_owned())), "</c>");
    assert_eq!(
        text_line(&Err(remote("4.00"))),
        "ERROR remote CORECONF response was 4.00: gone"
    );
    assert_eq!(mutation_line("set", &Ok(())), "OK set");
    assert_eq!(delete_line(&Ok(())), "OK delete");
    assert_eq!(delete_line(&Err(remote("4.04"))), "OK delete  not-found");
    assert_eq!(
        delete_line(&Err(remote("5.00"))),
        "ERROR remote CORECONF response was 5.00: gone"
    );
    assert_eq!(value_line(&Ok(None)), "not found");
    assert_eq!(
        value_line(&Ok(Some(JsonValue::Array(vec![JsonValue::Integer(7)])))),
        "[\n  7\n]"
    );
    assert_eq!(
        value_line(&Err(ApplicationError::Json("x".to_owned()))),
        "ERROR invalid JSON value: x"
    );
    assert_eq!(data_help().len(), 10);
}

#[test]
fn server_reports_each_datagram() {
    let text = |progress: ServeProgress| match serve_report(&progress, "h:1") {
        ServeReport::Sent(line) => line,
        ServeReport::Failed(line) => format!("FAILED {line}"),
    };
    assert_eq!(text(ServeProgress::Sent { sent: 12, length: 12 }), "TX APP   12 B");
    assert_eq!(
        text(ServeProgress::Sent { sent: 3, length: 12 }),
        "FAILED short UDP send to h:1: 3/12 bytes"
    );
    assert_eq!(
        text(ServeProgress::Unsent("down".to_owned())),
        "FAILED send response to h:1: down"
    );
    assert_eq!(
        text(ServeProgress::Unhandled("bad".to_owned())),
        "FAILED handle datagram from h:1: bad"
    );
}
