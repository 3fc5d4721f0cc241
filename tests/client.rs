use haret::api::{ElementType, VrApiReq, VrApiRsp};
use haret::cli::{format_reply, help, parse, CommandError, ClientSession, NOT_UTF8, USAGE};

#[test]
fn parses_each_command() {
    assert_eq!(
        parse("create binary /foo"),
        Ok(VrApiReq::Create { path: "/foo".to_string(), ty: ElementType::Binary })
    );
    assert_eq!(
        parse("  put /foo newdata 12 "),
        Ok(VrApiReq::Put { path: "/foo".to_string(), data: b"newdata".to_vec(), cas_tag: Some(12) })
    );
    assert_eq!(
        parse("put /foo newdata"),
        Ok(VrApiReq::Put { path: "/foo".to_string(), data: b"newdata".to_vec(), cas_tag: None })
    );
    assert_eq!(parse("delete /foo"), Ok(VrApiReq::Delete { path: "/foo".to_string(), cas_tag: None }));
    assert_eq!(parse("delete /foo 3"), Ok(VrApiReq::Delete { path: "/foo".to_string(), cas_tag: Some(3) }));
    assert_eq!(parse("get /foo"), Ok(VrApiReq::Get { path: "/foo".to_string(), cas: false }));
    assert_eq!(parse("get /foo cas"), Ok(VrApiReq::Get { path: "/foo".to_string(), cas: true }));
    assert_eq!(parse("list /"), Ok(VrApiReq::List { path: "/".to_string() }));
    assert_eq!(
        parse("create set /s"),
        Ok(VrApiReq::Create { path: "/s".to_string(), ty: ElementType::UnorderedSet })
    );
}

#[test]
fn rejects_malformed_commands() {
    assert_eq!(parse(""), Err(CommandError::Usage));
    assert_eq!(parse("frobnicate /foo"), Err(CommandError::Usage));
    assert_eq!(parse("create blob /foo"), Err(CommandError::Usage));
    assert_eq!(parse("create binary /foo /bar"), Err(CommandError::Usage));
    assert_eq!(parse("put /foo"), Err(CommandError::Usage));
    assert_eq!(parse("put /foo data 0:0:2"), Err(CommandError::BadCasVersion));
    assert_eq!(parse("delete /foo x"), Err(CommandError::BadCasVersion));
    assert_eq!(parse("get /foo tag"), Err(CommandError::Usage));
    assert_eq!(parse("get /foo cas more"), Err(CommandError::Usage));
    assert_eq!(parse("list /a /b"), Err(CommandError::Usage));
}

#[test]
fn help_is_the_usage_text() {
    assert_eq!(help(), USAGE.to_string());
    assert!(help().starts_with("Usage:"));
}

#[test]
fn formats_replies() {
    assert_eq!(format_reply(&VrApiRsp::Success), "ok");
    assert_eq!(format_reply(&VrApiRsp::Timeout), "Timeout");
    assert_eq!(
        format_reply(&VrApiRsp::Element { data: b"hello".to_vec(), cas_tag: Some(42) }),
        "CAS: 42\nhello"
    );
    assert_eq!(format_reply(&VrApiRsp::Element { data: b"hi".to_vec(), cas_tag: None }), "hi");
    assert_eq!(
        format_reply(&VrApiRsp::KeyList { keys: vec!["a".to_string(), "b".to_string()] }),
        "a\nb\n"
    );
    assert_eq!(format_reply(&VrApiRsp::ParentNotFoundError), "Parent path not found");
    assert_eq!(format_reply(&VrApiRsp::ElementAlreadyExistsError), "Element already exists");
    assert_eq!(format_reply(&VrApiRsp::ElementNotFoundError("/x".to_string())), "Element /x Not found");
    assert_eq!(
        format_reply(&VrApiRsp::CasFailedError { path: "/x".to_string(), expected: 1, actual: 20 }),
        "CAS on /x failed. Expected: 1, Actual: 20"
    );
    assert_eq!(format_reply(&VrApiRsp::Error { msg: "boom".to_string() }), "boom");
}

#[test]
fn session_numbers_requests_in_order() {
    let mut s = ClientSession::new("F378DC44-F58B-4A6D-AF63-C8791C44043C").unwrap();
    assert_eq!(s.client_id, 0xF378DC44F58B4A6DAF63C8791C44043C);
    let q1 = s.next_request(VrApiReq::List { path: "/".to_string() }).unwrap();
    let q2 = s.next_request(VrApiReq::List { path: "/".to_string() }).unwrap();
    assert_eq!(q1.request_num, 1);
    assert_eq!(q2.request_num, 2);
    assert!(ClientSession::new("not-a-uuid").is_none());
    let mut last = ClientSession::with_id(7);
    last.request_num = u64::MAX;
    assert!(last.next_request(VrApiReq::List { path: "/".to_string() }).is_none());
}

#[test]
fn non_utf8_data_is_noted() {
    let shown = format_reply(&VrApiRsp::Element { data: vec![0xff, 0xfe], cas_tag: Some(3) });
    assert_eq!(shown, format!("CAS: 3\n{}", NOT_UTF8));
}
