use ice_rs::dict::Dict;
use ice_rs::encoding::{decode_string_checked, AsBytes, FromBytes};
use ice_rs::errors::{Error, ParsingError, ProtocolError};
use ice_rs::iceobject::{id_from_reply, ids_from_reply, is_a_from_reply, type_id_params};
use ice_rs::protocol::{Encapsulation, Header, Identity, MessageType, ReplyData, RequestData};
use ice_rs::proxy::{reply_from_message, Proxy};
use ice_rs::text::{decimal_string, parse_i32};
use ice_rs::transport::{
    accept_connection, parse_message, request_frame, validation_frame, Transport,
};

struct Recorder {
    sent: Vec<i32>,
}

impl Transport for Recorder {
    fn read_message(&mut self) -> Result<MessageType, Error> {
        Ok(MessageType::ValidateConnection(Header::new(3, 14)))
    }

    fn validate_connection(&mut self) -> Result<(), Error> {
        Ok(())
    }

    fn make_request(&mut self, request: &RequestData) -> Result<(), Error> {
        self.sent.push(request.request_id);
        Ok(())
    }
}

fn sample_reply() -> ReplyData {
    ReplyData {
        request_id: 7,
        status: 0,
        body: Encapsulation { size: 8, major: 1, minor: 1, data: vec![1, 0] },
    }
}

#[test]
fn test_reply_message_roundtrip() {
    let reply = sample_reply();
    let reply_bytes = reply.as_bytes().unwrap();
    let header = Header::new(2, 14 + reply_bytes.len() as i32);
    let mut bytes = header.as_bytes().unwrap();
    bytes.extend(reply_bytes);
    match parse_message(&bytes).unwrap() {
        MessageType::Reply(h, r) => {
            assert_eq!("IceP", h.magic);
            assert_eq!(2, h.message_type);
            assert_eq!(27, h.message_size);
            assert_eq!(7, r.request_id);
            assert_eq!(0, r.status);
            assert_eq!(8, r.body.size);
            assert_eq!(vec![1, 0], r.body.data);
        },
        _ => panic!("expected a reply"),
    }
}

#[test]
fn test_validation_message_roundtrip() {
    let bytes = Header::new(3, 14).as_bytes().unwrap();
    match parse_message(&bytes).unwrap() {
        MessageType::ValidateConnection(h) => {
            assert_eq!(3, h.message_type);
            assert_eq!(14, h.message_size);
        },
        _ => panic!("expected a connection validation"),
    }
}

#[test]
fn test_validation_frame() {
    let bytes = validation_frame();
    assert_eq!(vec![0x49, 0x63, 0x65, 0x50, 1, 1, 1, 1, 0, 0, 14, 0, 0, 0], bytes);
}

#[test]
fn test_request_frame() {
    let mut context = Dict::new();
    context.insert(String::from("key"), String::from("value"));
    let request = RequestData {
        request_id: 3,
        id: Identity { name: String::from("hello"), category: String::new() },
        facet: Vec::new(),
        operation: String::from("sayHello"),
        mode: 0,
        context: context,
        params: Encapsulation::empty(),
    };
    let request_len = request.as_bytes().unwrap().len();
    let frame = request_frame(&request);
    assert_eq!(14 + request_len, frame.len());
    let mut read = 0;
    let header = Header::from_bytes(&frame, &mut read).unwrap();
    assert_eq!(frame.len() as i32, header.message_size);
    assert_eq!(0, header.message_type);
    assert_eq!(14, read);
    let mut read = 0;
    let back = RequestData::from_bytes(&frame[14..], &mut read).unwrap();
    assert_eq!(request_len as i32, read);
    assert_eq!(3, back.request_id);
    assert_eq!("hello", back.id.name);
    assert_eq!("sayHello", back.operation);
    assert_eq!(Some(&String::from("value")), back.context.get("key"));
}

#[test]
fn test_proxy_request_ids() {
    let mut proxy = Proxy::new(Recorder { sent: Vec::new() });
    assert_eq!(0, proxy.request_id);
    let first = proxy.create_request("hello", "sayHello", 0, Encapsulation::empty());
    let second = proxy.create_request("hello", "sayHello", 0, Encapsulation::empty());
    assert_eq!(1, first.request_id);
    assert_eq!(2, second.request_id);
    assert_eq!("hello", second.id.name);
    assert_eq!("", second.id.category);
    assert_eq!("sayHello", second.operation);
    assert_eq!(0, second.context.len());
    // The recorder answers with a connection validation, which is no reply.
    assert_eq!(Some(Error::ProtocolError), proxy.make_request(&first).err());
    assert_eq!(vec![1], proxy.transport.sent);
    assert_eq!(2, proxy.request_id);
}

#[test]
fn test_reply_from_message() {
    let reply = reply_from_message(MessageType::Reply(Header::new(2, 25), sample_reply())).unwrap();
    assert_eq!(7, reply.request_id);
    let other = reply_from_message(MessageType::ValidateConnection(Header::new(3, 14)));
    assert_eq!(Some(Error::ProtocolError), other.err());
}

#[test]
fn test_object_replies() {
    let yes = ReplyData { request_id: 1, status: 0, body: Encapsulation { size: 7, major: 1, minor: 1, data: vec![1] } };
    assert_eq!(Ok(true), is_a_from_reply(&yes));
    let id = ReplyData {
        request_id: 1,
        status: 0,
        body: Encapsulation { size: 10, major: 1, minor: 1, data: vec![3, 0x3a, 0x3a, 0x41] },
    };
    assert_eq!(Ok(String::from("::A")), id_from_reply(&id));
    let ids = ReplyData {
        request_id: 1,
        status: 0,
        body: Encapsulation { size: 12, major: 1, minor: 1, data: vec![2, 1, 0x41, 1, 0x42] },
    };
    assert_eq!(Ok(vec![String::from("A"), String::from("B")]), ids_from_reply(&ids));
    let truncated = ReplyData {
        request_id: 1,
        status: 0,
        body: Encapsulation { size: 8, major: 1, minor: 1, data: vec![5, 0x41] },
    };
    assert_eq!(Some(Error::CannotDeserialize), id_from_reply(&truncated).err());
    let params = type_id_params("::Demo::Hello").unwrap();
    assert_eq!(6 + 14, params.size);
    assert_eq!(13, params.data[0]);
}

#[test]
fn test_error_variants() {
    let mut read = 0;
    assert_eq!(Some(Error::CannotDeserialize), Header::from_bytes(&[0x49, 0x63], &mut read).err());
    let bad_magic = [0x49, 0x63, 0x65, 0x51, 1, 1, 1, 1, 3, 0, 14, 0, 0, 0];
    let mut read = 0;
    assert_eq!(Some(Error::WrongProtocolMagic), Header::from_bytes(&bad_magic, &mut read).err());
    let request_message = Header::new(0, 14).as_bytes().unwrap();
    assert_eq!(Some(Error::ProtocolError), parse_message(&request_message).err());
    let mut read = 0;
    assert_eq!(Some(Error::CannotDeserialize), decode_string_checked(&[4, 0x41], &mut read).err());
    assert_eq!(0, read);
    assert_eq!("ProtocolError!", ProtocolError {}.message());
    assert!(!ParsingError {}.message().is_empty());
}

#[test]
fn test_decimal_roundtrip() {
    for n in [0, 1, 9, 10, 99, 100, -1, -10, 65535, i32::MAX, i32::MIN, i32::MIN + 1] {
        assert_eq!(Some(n), parse_i32(&decimal_string(n)));
    }
}

#[test]
fn test_dict_insert_law() {
    let mut dict = Dict::new();
    dict.insert(String::from("a"), String::from("1"));
    dict.insert(String::from("b"), String::from("2"));
    dict.insert(String::from("a"), String::from("3"));
    assert_eq!(2, dict.len());
    assert_eq!(Some(&String::from("3")), dict.get("a"));
    assert_eq!(Some(&String::from("2")), dict.get("b"));
    assert!(dict.contains_key("b"));
    assert!(!dict.contains_key("c"));
    assert_eq!(None, dict.get("c"));
}

#[test]
fn test_accept_connection() {
    let header = accept_connection(MessageType::ValidateConnection(Header::new(3, 14))).unwrap();
    assert_eq!(3, header.message_type);
    let reply = MessageType::Reply(Header::new(2, 27), sample_reply());
    assert_eq!(Some(Error::TcpError), accept_connection(reply).err());
}
