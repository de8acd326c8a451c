//! The mux wire protocol: frames written and read back.
use box_cli::protocol::{
    read_client_msg, read_server_msg, serialize_output_slice, serialize_server_msg, write_client_msg,
    write_server_msg, ClientMsg, ServerMsg,
};

#[test]
fn test_server_output_roundtrip() {
    let msg = ServerMsg::Output(b"hello world".to_vec());
    let mut buf = Vec::new();
    write_server_msg(&mut buf, &msg);
    let (decoded, _) = read_server_msg(&buf[..]).ok().unwrap();
    match decoded {
        ServerMsg::Output(data) => assert_eq!(data, b"hello world"),
        _ => panic!("expected Output"),
    }
}

#[test]
fn test_server_resized_roundtrip() {
    let msg = ServerMsg::Resized { cols: 120, rows: 40 };
    let mut buf = Vec::new();
    write_server_msg(&mut buf, &msg);
    let (decoded, _) = read_server_msg(&buf[..]).ok().unwrap();
    match decoded {
        ServerMsg::Resized { cols, rows } => {
            assert_eq!(cols, 120);
            assert_eq!(rows, 40);
        }
        _ => panic!("expected Resized"),
    }
}

#[test]
fn test_server_exited_roundtrip() {
    let msg = ServerMsg::Exited(42);
    let mut buf = Vec::new();
    write_server_msg(&mut buf, &msg);
    let (decoded, _) = read_server_msg(&buf[..]).ok().unwrap();
    match decoded {
        ServerMsg::Exited(code) => assert_eq!(code, 42),
        _ => panic!("expected Exited"),
    }
}

#[test]
fn test_client_input_roundtrip() {
    let msg = ClientMsg::Input(b"keystrokes".to_vec());
    let mut buf = Vec::new();
    write_client_msg(&mut buf, &msg);
    let (decoded, _) = read_client_msg(&buf[..]).ok().unwrap();
    match decoded {
        ClientMsg::Input(data) => assert_eq!(data, b"keystrokes"),
        _ => panic!("expected Input"),
    }
}

#[test]
fn test_client_resize_roundtrip() {
    let msg = ClientMsg::Resize { cols: 80, rows: 24 };
    let mut buf = Vec::new();
    write_client_msg(&mut buf, &msg);
    let (decoded, _) = read_client_msg(&buf[..]).ok().unwrap();
    match decoded {
        ClientMsg::Resize { cols, rows } => {
            assert_eq!(cols, 80);
            assert_eq!(rows, 24);
        }
        _ => panic!("expected Resize"),
    }
}

#[test]
fn test_client_kill_roundtrip() {
    let msg = ClientMsg::Kill;
    let mut buf = Vec::new();
    write_client_msg(&mut buf, &msg);
    let (decoded, _) = read_client_msg(&buf[..]).ok().unwrap();
    assert!(matches!(decoded, ClientMsg::Kill));
}

#[test]
fn test_server_output_empty() {
    let msg = ServerMsg::Output(vec![]);
    let mut buf = Vec::new();
    write_server_msg(&mut buf, &msg);
    let (decoded, _) = read_server_msg(&buf[..]).ok().unwrap();
    match decoded {
        ServerMsg::Output(data) => assert!(data.is_empty()),
        _ => panic!("expected Output"),
    }
}

#[test]
fn test_server_exited_negative() {
    let msg = ServerMsg::Exited(-1);
    let mut buf = Vec::new();
    write_server_msg(&mut buf, &msg);
    let (decoded, _) = read_server_msg(&buf[..]).ok().unwrap();
    match decoded {
        ServerMsg::Exited(code) => assert_eq!(code, -1),
        _ => panic!("expected Exited"),
    }
}

#[test]
fn test_unknown_server_tag() {
    let buf = vec![0xFF, 0, 0, 0, 0];
    let result = read_server_msg(&buf[..]);
    assert!(result.is_err());
}

#[test]
fn test_unknown_client_tag() {
    let buf = vec![0xFF, 0, 0, 0, 0];
    let result = read_client_msg(&buf[..]);
    assert!(result.is_err());
}

#[test]
fn frames_have_tag_and_big_endian_length() {
    let buf = serialize_server_msg(&ServerMsg::Resized { cols: 0x0102, rows: 0x0304 });
    assert_eq!(buf, vec![0x02, 0, 0, 0, 4, 0x01, 0x02, 0x03, 0x04]);
    let out = serialize_output_slice(b"ab");
    assert_eq!(out, vec![0x01, 0, 0, 0, 2, b'a', b'b']);
}

#[test]
fn reading_stops_after_one_frame() {
    let mut buf = serialize_output_slice(b"xyz");
    let first_len = buf.len();
    buf.extend_from_slice(&[0x13, 0, 0, 0, 0]);
    let (msg, used) = read_server_msg(&buf[..]).ok().unwrap();
    assert_eq!(used, first_len);
    assert!(matches!(msg, ServerMsg::Output(ref d) if d == b"xyz"));
}

#[test]
fn short_input_is_refused() {
    assert!(read_server_msg(&[0x01, 0, 0]).is_err());
    assert!(read_server_msg(&[0x01, 0, 0, 0, 5, b'a']).is_err());
    assert!(read_client_msg(&[0x12, 0, 0, 0, 2, 0, 80]).is_err());
}
