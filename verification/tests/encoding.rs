use ice_rs::dict::Dict;
use ice_rs::encoding::{
    decode_bool, decode_dict, decode_int, decode_long, decode_short, decode_size, decode_string,
    decode_string_seq, encode_bool, encode_dict, encode_int, encode_long, encode_short,
    encode_size, encode_string, encode_string_seq, AsBytes, AsEncapsulation, FromBytes,
    FromEncapsulation,
};
use ice_rs::protocol::{Encapsulation, Header, Identity, ReplyData, RequestData};

#[test]
fn test_size_encoding() {
    let mut read_bytes = 0;
    let encoded = encode_size(10);
    let decoded = decode_size(&encoded, &mut read_bytes);
    assert_eq!(10, decoded);
    assert_eq!(1, read_bytes);

    read_bytes = 0;
    let encoded = encode_size(500);
    let decoded = decode_size(&encoded, &mut read_bytes);
    assert_eq!(500, decoded);
    assert_eq!(5, read_bytes);
}

#[test]
fn test_string_encoding() {
    let mut read_bytes = 0;
    let encoded = encode_string("Hello");
    let decoded = decode_string(&encoded, &mut read_bytes).expect("Cannot decode test string");
    assert_eq!("Hello", decoded);
    assert_eq!(6, read_bytes);
}

#[test]
fn test_dict_encoding() {
    let mut read_bytes = 0;
    let mut dict = Dict::new();
    dict.insert(String::from("Hello"), String::from("World"));

    let encoded = encode_dict(&dict);
    let decoded = decode_dict(&encoded, &mut read_bytes).expect("Cannot decode test dict");
    assert!(decoded.contains_key("Hello"));
    assert_eq!("World", decoded.get("Hello").unwrap_or(&String::from("")));
}

#[test]
fn test_string_seq_encoding() {
    let mut read_bytes = 0;
    let seq = vec![String::from("Hello"), String::from("World")];
    let encoded = encode_string_seq(&seq);
    let decoded = decode_string_seq(&encoded, &mut read_bytes).expect("Cannot decode test dict");
    assert_eq!(2, decoded.len());
    assert_eq!(seq, decoded);
}

#[test]
fn test_short_encoding() {
    let mut read_bytes = 0;
    let value: i16 = 3;
    let encoded = encode_short(value);
    let decoded = decode_short(&encoded, &mut read_bytes).expect("Cannot decode test short");
    assert_eq!(value, decoded);
}

#[test]
fn test_int_encoding() {
    let mut read_bytes = 0;
    let value: i32 = 3;
    let encoded = encode_int(value);
    let decoded = decode_int(&encoded, &mut read_bytes).expect("Cannot decode test int");
    assert_eq!(value, decoded);
}

#[test]
fn test_long_encoding() {
    let mut read_bytes = 0;
    let value: i64 = 3;
    let encoded = encode_long(value);
    let decoded = decode_long(&encoded, &mut read_bytes).expect("Cannot decode test long");
    assert_eq!(value, decoded);
}

#[test]
fn test_bool_encoding() {
    let mut read_bytes = 0;
    let value = true;
    let encoded = encode_bool(value);
    let decoded = decode_bool(&encoded, &mut read_bytes).expect("Cannot decode test bool");
    assert_eq!(value, decoded);
}

#[test]
fn test_string_encapsulation() {
    let value = String::from("Hello World");
    let encapsulation = value.as_encapsulation().expect("Cannot encapsulate test string");
    assert_eq!(18, encapsulation.size);
    let decoded = String::from_encapsulation(encapsulation)
        .expect("Cannot decode test string from encapsulation");
    assert_eq!(value, decoded);
}

#[test]
fn test_string_seq_encapsulation() {
    let seq = vec![String::from("Hello"), String::from("World")];
    let encapsulation = seq.as_encapsulation().expect("Cannot encapsulate test string seq");
    assert_eq!(19, encapsulation.size);
    let decoded = Vec::from_encapsulation(encapsulation)
        .expect("Cannot decode test string seq from encapsulation");
    assert_eq!(seq, decoded);
}

#[test]
fn test_bool_encapsulation() {
    let value = true;
    let encapsulation = value.as_encapsulation().expect("Cannot encapsulate test bool");
    assert_eq!(7, encapsulation.size);
    let decoded = bool::from_encapsulation(encapsulation)
        .expect("Cannot decode test bool from encapsulation");
    assert_eq!(value, decoded);
}

#[test]
fn test_short_encapsulation() {
    let value: i16 = 15;
    let encapsulation = value.as_encapsulation().expect("Cannot encapsulate test short");
    assert_eq!(8, encapsulation.size);
    let decoded = i16::from_encapsulation(encapsulation)
        .expect("Cannot decode test short from encapsulation");
    assert_eq!(value, decoded);
}

#[test]
fn test_int_encapsulation() {
    let value: i32 = 123;
    let encapsulation = value.as_encapsulation().expect("Cannot encapsulate test int");
    assert_eq!(10, encapsulation.size);
    let decoded = i32::from_encapsulation(encapsulation)
        .expect("Cannot decode test int from encapsulation");
    assert_eq!(value, decoded);
}

#[test]
fn test_long_encapsulation() {
    let value: i64 = 12345678;
    let encapsulation = value.as_encapsulation().expect("Cannot encapsulate test long");
    assert_eq!(14, encapsulation.size);
    let decoded = i64::from_encapsulation(encapsulation)
        .expect("Cannot decode test long from encapsulation");
    assert_eq!(value, decoded);
}

#[test]
fn test_dict_encapsulation() {
    let mut dict = Dict::new();
    dict.insert(String::from("Hello"), String::from("World"));

    let encapsulation = dict.as_encapsulation().expect("Cannot encapsulate test dict");
    assert_eq!(19, encapsulation.size);
    let decoded = Dict::from_encapsulation(encapsulation)
        .expect("Cannot decode test dict from encapsulation");
    assert_eq!(dict, decoded);
}

#[test]
fn test_identity_ecoding() {
    let mut read_bytes = 0;
    let id = Identity { name: String::from("Hello"), category: String::from("") };
    let bytes = id.as_bytes().expect("Cannot encode test identity");
    let decoded = Identity::from_bytes(&bytes, &mut read_bytes).expect("Cannot decode test identity");
    assert_eq!(7, read_bytes);
    assert_eq!(id.name, decoded.name);
    assert_eq!(id.category, decoded.category);
}

#[test]
fn test_header_ecoding() {
    let mut read_bytes = 0;
    let header = Header::new(0, 14);
    let bytes = header.as_bytes().expect("Cannot encode test header");
    let decoded = Header::from_bytes(&bytes, &mut read_bytes).expect("Cannot decode test header");
    assert_eq!(14, read_bytes);
    assert_eq!(header.magic, decoded.magic);
    assert_eq!(header.message_size, decoded.message_size);
    assert_eq!(header.message_type, decoded.message_type);
    assert_eq!(header.magic, decoded.magic);
}

#[test]
fn test_request_ecoding() {
    let mut read_bytes = 0;
    let request = RequestData {
        request_id: 1,
        id: Identity { name: String::from("Test"), category: String::from("") },
        facet: vec![],
        operation: String::from("Op"),
        mode: 0,
        context: Dict::new(),
        params: Encapsulation::empty(),
    };
    let bytes = request.as_bytes().expect("Cannot encode test request");
    let decoded = RequestData::from_bytes(&bytes, &mut read_bytes).expect("Cannot decode test request");
    assert_eq!(22, read_bytes);
    assert_eq!(request.request_id, decoded.request_id);
    assert_eq!(request.id.name, decoded.id.name);
    assert_eq!(request.facet, decoded.facet);
    assert_eq!(request.operation, decoded.operation);
    assert_eq!(request.mode, decoded.mode);
    assert_eq!(request.context, decoded.context);
}

#[test]
fn test_reply_encoding() {
    let mut read_bytes = 0;
    let reply = ReplyData { request_id: 1, status: 0, body: Encapsulation::empty() };
    let bytes = reply.as_bytes().expect("Cannot encode test reply");
    let decoded = ReplyData::from_bytes(&bytes, &mut read_bytes).expect("Cannot decode test reply");
    assert_eq!(11, read_bytes);
    assert_eq!(reply.request_id, decoded.request_id);
    assert_eq!(reply.status, decoded.status);
}
