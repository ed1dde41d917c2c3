use textbuffer::{
    method_of, resp_err_code, BufErr, ConnectReq, Editor, InsertAtPtReq, IntoLine, Method, Point, RespErr,
    RespOk,
};

#[test]
fn connect_once() {
    let mut ed = Editor::new(0x67e5504410b1426f9247bb680e5fe0c8);
    let req = ConnectReq { client_id: String::from("client-1"), method: Method::Connect };
    match req.exec(&mut ed).0 {
        Ok(RespOk::ConnectResp(c)) => {
            assert_eq!(c.server_id, "67e55044-10b1-426f-9247-bb680e5fe0c8")
        }
        _ => panic!("expected a connect response"),
    }
    assert_eq!(ed.client_id.as_deref(), Some("client-1"));
    match req.exec(&mut ed).0 {
        Err(RespErr::ClientAlreadyConnected) => {}
        _ => panic!("expected a refusal"),
    }
}

#[test]
fn insert_request_reports_lines() {
    let mut ed = Editor::new(1);
    let req = InsertAtPtReq {
        client_id: String::from("c"),
        method: Method::InsertAtPt,
        point: Point::new(0, 0),
        string: String::from("ab\ncd"),
    };
    match req.exec(&mut ed).0 {
        Ok(RespOk::InsertAtPtOk(lines)) => {
            assert_eq!(lines.len(), 2);
            assert_eq!((lines[0].number, lines[0].line.as_str()), (0, "ab"));
            assert_eq!((lines[1].number, lines[1].line.as_str()), (1, "cd"));
        }
        _ => panic!("expected changed lines"),
    }
    let bad = InsertAtPtReq {
        client_id: String::from("c"),
        method: Method::InsertAtPt,
        point: Point::new(5, 0),
        string: String::from("x"),
    };
    match bad.exec(&mut ed).0 {
        Err(RespErr::InsertAtPtErr(BufErr::InvalidPoint)) => {}
        _ => panic!("expected an invalid point"),
    }
    assert_eq!(ed.buffer.to_str(), "ab\ncd\n");
}

#[test]
fn error_codes_and_messages() {
    let errs = [
        (RespErr::MalformedInput, 0, "malformed input"),
        (RespErr::InvalidMethod, 1, "invalid method"),
        (RespErr::MissingMethod, 2, "missing method"),
        (RespErr::TestError, 3, "test error"),
        (RespErr::DeserializationError, 4, "deserialization error"),
        (RespErr::ClientAlreadyConnected, 5, "client already connected"),
        (RespErr::InsertAtPtErr(BufErr::InvalidPoint), 6, "insert at point error: invalid point"),
        (RespErr::InsertAtPtErr(BufErr::InvalidStartPoint), 7, "insert at point error: invalid start point"),
        (RespErr::InsertAtPtErr(BufErr::InvalidEndPoint), 8, "insert at point error: invalid end point"),
        (RespErr::InsertAtPtErr(BufErr::InvalidDeletionLength), 9, "insert at point error: invalid deletion length"),
    ];
    for (e, code, msg) in errs.iter() {
        assert_eq!(resp_err_code(e), *code);
        assert_eq!(e.message(), *msg);
    }
}

#[test]
fn into_line_keeps_text_and_number() {
    let a = "ab".into_line(0);
    let b = String::from("cd").into_line(1);
    assert_eq!((a.number, a.line.as_str()), (0, "ab"));
    assert_eq!((b.number, b.line.as_str()), (1, "cd"));
}

#[test]
fn method_names_are_recognised() {
    assert_eq!(Method::from_name("connect"), Some(Method::Connect));
    assert_eq!(Method::from_name("insertAtPt"), Some(Method::InsertAtPt));
    assert_eq!(Method::from_name("connectx"), None);
    assert_eq!(Method::from_name(""), None);
    assert_eq!(method_of(Some("insertAtPt")).ok(), Some(Method::InsertAtPt));
    assert!(matches!(method_of(Some("deleteAll")), Err(RespErr::InvalidMethod)));
    assert!(matches!(method_of(None), Err(RespErr::MissingMethod)));
}
