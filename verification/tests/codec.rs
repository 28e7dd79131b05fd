//! Record codec tests: canonical encoding, decoding, and round trips.

use gql_gateway::entities::{User, Item};
use gql_gateway::records::{
    decode_user, decode_item, decode_item_list, encode_user, encode_item, encode_item_list,
};

#[test]
fn user_encodes_canonically() {
    let u = User { id: 7, user_name: b"alice".to_vec(), email: b"alice@example.com".to_vec() };
    let enc = encode_user(&u);
    assert_eq!(
        String::from_utf8(enc).unwrap(),
        r#"{"id":7,"user_name":"alice","email":"alice@example.com"}"#
    );
}

#[test]
fn user_round_trip() {
    let u = User { id: 2147483647, user_name: b"bob".to_vec(), email: b"b@c.d".to_vec() };
    let enc = encode_user(&u);
    let back = decode_user(&enc).expect("canonical encoding must decode");
    assert_eq!(back.id, 2147483647);
    assert_eq!(back.user_name, b"bob".to_vec());
    assert_eq!(back.email, b"b@c.d".to_vec());
}

#[test]
fn video_round_trip() {
    let v = Item { id: 0, title: b"intro".to_vec(), url: b"http://x/1".to_vec() };
    let enc = encode_item(&v);
    assert_eq!(
        String::from_utf8(enc.clone()).unwrap(),
        r#"{"id":0,"title":"intro","url":"http://x/1"}"#
    );
    let back = decode_item(&enc).expect("canonical encoding must decode");
    assert_eq!(back.id, 0);
    assert_eq!(back.title, b"intro".to_vec());
    assert_eq!(back.url, b"http://x/1".to_vec());
}

#[test]
fn video_list_round_trip() {
    let vs = vec![
        Item { id: 1, title: b"a".to_vec(), url: b"u1".to_vec() },
        Item { id: 2, title: b"b".to_vec(), url: b"u2".to_vec() },
        Item { id: 30, title: b"c".to_vec(), url: b"u3".to_vec() },
    ];
    let enc = encode_item_list(&vs);
    assert_eq!(
        String::from_utf8(enc.clone()).unwrap(),
        r#"[{"id":1,"title":"a","url":"u1"},{"id":2,"title":"b","url":"u2"},{"id":30,"title":"c","url":"u3"}]"#
    );
    let back = decode_item_list(&enc).expect("canonical encoding must decode");
    assert_eq!(back.len(), 3);
    assert_eq!(back[0].id, 1);
    assert_eq!(back[1].title, b"b".to_vec());
    assert_eq!(back[2].url, b"u3".to_vec());
}

#[test]
fn empty_video_list_round_trip() {
    let vs: Vec<Item> = Vec::new();
    let enc = encode_item_list(&vs);
    assert_eq!(enc, b"[]".to_vec());
    let back = decode_item_list(&enc).expect("empty list must decode");
    assert_eq!(back.len(), 0);
}

#[test]
fn decode_rejects_malformed_records() {
    assert!(decode_user(&b"{}".to_vec()).is_none());
    assert!(decode_user(&b"".to_vec()).is_none());
    // trailing bytes
    assert!(decode_user(&br#"{"id":7,"user_name":"a","email":"b"}x"#.to_vec()).is_none());
    // a required member is missing
    assert!(decode_user(&br#"{"id":7,"user_name":"a"}"#.to_vec()).is_none());
    // an item record is not a user record
    assert!(decode_user(&br#"{"id":7,"title":"a","url":"b"}"#.to_vec()).is_none());
    // a member of the wrong type
    assert!(decode_user(&br#"{"id":"7","user_name":"a","email":"b"}"#.to_vec()).is_none());
    // missing digits
    assert!(decode_item(&br#"{"id":,"title":"a","url":"b"}"#.to_vec()).is_none());
    // unterminated list
    assert!(decode_item_list(&br#"[{"id":1,"title":"a","url":"b"}"#.to_vec()).is_none());
    assert!(decode_item_list(&b"[".to_vec()).is_none());
}

#[test]
fn encoded_records_are_valid_json() {
    let u = User { id: 11, user_name: b"carol".to_vec(), email: b"c@d.e".to_vec() };
    let enc = encode_user(&u);
    let val: serde_json::Value = serde_json::from_slice(&enc).expect("valid JSON");
    assert_eq!(val.get("id").unwrap().as_i64().unwrap(), 11);
    assert_eq!(val.get("user_name").unwrap().as_str().unwrap(), "carol");
    assert_eq!(val.get("email").unwrap().as_str().unwrap(), "c@d.e");

    let vs = vec![Item { id: 5, title: b"t".to_vec(), url: b"u".to_vec() }];
    let enc2 = encode_item_list(&vs);
    let val2: serde_json::Value = serde_json::from_slice(&enc2).expect("valid JSON");
    assert_eq!(val2.as_array().unwrap().len(), 1);
    assert_eq!(val2[0].get("title").unwrap().as_str().unwrap(), "t");
}

#[test]
fn entity_getters_read_the_record() {
    let u = User { id: 9, user_name: b"dave".to_vec(), email: b"d@e.f".to_vec() };
    assert_eq!(u.id(), 9);
    assert_eq!(u.name(), &b"dave".to_vec());
    assert_eq!(u.email(), &b"d@e.f".to_vec());
}

#[test]
fn decode_tolerates_whitespace_order_and_unknown_members() {
    // whitespace and reordered members
    let u = decode_user(&br#" { "email" : "b" , "id" : 7 , "user_name" : "a" } "#.to_vec())
        .expect("reordered record must decode");
    assert_eq!(u.id, 7);
    assert_eq!(u.user_name, b"a".to_vec());
    assert_eq!(u.email, b"b".to_vec());
    // an unknown member of any shape is skipped
    let v = decode_item(
        &br#"{"id":3,"extra":{"nested":[1,2,{"x":null}],"ok":true},"title":"t","url":"u"}"#
            .to_vec(),
    )
    .expect("unknown members are skipped");
    assert_eq!(v.id, 3);
    assert_eq!(v.title, b"t".to_vec());
    // a list with whitespace between elements
    let vs = decode_item_list(
        &br#" [ {"id":1,"title":"a","url":"x"} , {"id":2,"title":"b","url":"y"} ] "#.to_vec(),
    )
    .expect("spaced list must decode");
    assert_eq!(vs.len(), 2);
    assert_eq!(vs[1].id, 2);
}

#[test]
fn decode_handles_string_escapes() {
    let u = decode_user(&br#"{"id":1,"user_name":"a\"b","email":"c\\d\ne"}"#.to_vec())
        .expect("escaped strings must decode");
    assert_eq!(u.user_name, b"a\"b".to_vec());
    assert_eq!(u.email, b"c\\d\ne".to_vec());
    // \uXXXX contributes the UTF-8 bytes of its code point
    let v = decode_item(&br#"{"id":1,"title":"\u0041\u00e9","url":"u"}"#.to_vec())
        .expect("unicode escapes must decode");
    assert_eq!(v.title, "A\u{e9}".as_bytes().to_vec());
}

#[test]
fn round_trip_with_escaped_attributes() {
    // attributes holding a quote, a backslash and a newline survive the
    // round trip: the encoder escapes them
    let u = User {
        id: 5,
        user_name: b"a\"quoted\"".to_vec(),
        email: b"line1\nback\\slash".to_vec(),
    };
    let enc = encode_user(&u);
    assert_eq!(
        String::from_utf8(enc.clone()).unwrap(),
        r#"{"id":5,"user_name":"a\"quoted\"","email":"line1\nback\\slash"}"#
    );
    let back = decode_user(&enc).expect("escaped encoding must decode");
    assert_eq!(back.user_name, u.user_name);
    assert_eq!(back.email, u.email);
    // and the encoding is itself valid JSON
    let val: serde_json::Value = serde_json::from_slice(&enc).expect("valid JSON");
    assert_eq!(val.get("user_name").unwrap().as_str().unwrap(), "a\"quoted\"");
}
