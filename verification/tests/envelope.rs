use corun::message::{is_inline, Envelope, INLINE_CAPACITY};
use corun::net::{Closed, ConnInfo, Line};
use corun::poll::WakeUp;

#[test]
fn round_trip_u32() {
    let e = Envelope::pack(7u32);
    assert_eq!(e.unpack::<u32>().unwrap(), 7u32);
}

#[test]
fn round_trip_u64() {
    let e = Envelope::pack(0xDEAD_BEEF_0102_0304u64);
    assert_eq!(e.unpack::<u64>().unwrap(), 0xDEAD_BEEF_0102_0304u64);
}

#[test]
fn round_trip_short_string_inline() {
    // 3 bytes of UTF-8: stored inline
    let e = Envelope::pack(String::from("abc"));
    assert_eq!(e.unpack::<String>().unwrap(), "abc");
}

#[test]
fn round_trip_long_string_heap() {
    // longer than two machine words: stored on the heap, same observable value
    let text = String::from("a somewhat longer line of text");
    let e = Envelope::pack(text.clone());
    assert_eq!(e.unpack::<String>().unwrap(), text);
}

#[test]
fn round_trip_empty_string() {
    let e = Envelope::pack(String::new());
    assert_eq!(e.unpack::<String>().unwrap(), "");
}

#[test]
fn round_trip_unicode_string() {
    let text = String::from("héllo wörld ✓");
    let e = Envelope::pack(text.clone());
    assert_eq!(e.unpack::<String>().unwrap(), text);
}

#[test]
fn round_trip_wakeup() {
    let e = Envelope::pack(WakeUp(0x2013));
    assert_eq!(e.unpack::<WakeUp>().unwrap(), WakeUp(0x2013));
}

#[test]
fn round_trip_conn_info() {
    let c = ConnInfo { fd: 12, addr: 0x7F00_0001, port: 1337 };
    let e = Envelope::pack(c);
    assert_eq!(e.unpack::<ConnInfo>().unwrap(), c);
}

#[test]
fn round_trip_line_and_closed() {
    let e = Envelope::pack(Line(String::from("one line")));
    assert_eq!(e.unpack::<Line>().unwrap().0, "one line");
    let e = Envelope::pack(Closed);
    assert_eq!(e.unpack::<Closed>().unwrap(), Closed);
}

#[test]
fn unpack_wrong_type_fails_and_preserves() {
    let e = Envelope::pack(7u32);
    // a u64 unpack must fail and hand the envelope back unconsumed
    let e = match e.unpack::<u64>() {
        Ok(_) => panic!("u64 unpack of a u32 envelope succeeded"),
        Err(e) => e,
    };
    // the right type still gets the value out
    assert_eq!(e.unpack::<u32>().unwrap(), 7u32);
}

#[test]
fn unpack_wrong_type_string() {
    let e = Envelope::pack(String::from("not a number"));
    assert!(e.unpack::<u32>().is_err());
}

#[test]
fn tags_are_distinct() {
    let tags = [
        Envelope::pack(0u32).type_tag(),
        Envelope::pack(0u64).type_tag(),
        Envelope::pack(String::new()).type_tag(),
        Envelope::pack(WakeUp(0)).type_tag(),
        Envelope::pack(Closed).type_tag(),
        Envelope::pack(Line(String::new())).type_tag(),
        Envelope::pack(ConnInfo { fd: 0, addr: 0, port: 0 }).type_tag(),
    ];
    for i in 0..tags.len() {
        for j in 0..tags.len() {
            if i != j {
                assert_ne!(tags[i], tags[j]);
            }
        }
    }
}

#[test]
fn inline_boundary() {
    assert!(is_inline(0));
    assert!(is_inline(INLINE_CAPACITY));
    assert!(!is_inline(INLINE_CAPACITY + 1));
}

#[test]
fn boundary_sized_strings_round_trip() {
    // encodings of exactly 16 and 17 bytes, straddling the inline boundary
    let s16 = String::from("0123456789abcdef");
    let s17 = String::from("0123456789abcdefg");
    assert_eq!(Envelope::pack(s16.clone()).unpack::<String>().unwrap(), s16);
    assert_eq!(Envelope::pack(s17.clone()).unpack::<String>().unwrap(), s17);
}

#[test]
fn frame_round_trip() {
    let e = Envelope::pack(0x1234_5678u32);
    let tag = e.type_tag();
    let mut wire = e.encode_frame();
    // bytes appended after the frame do not disturb the decode
    wire.push(0xAA);
    wire.push(0xBB);
    let (back, used) = Envelope::decode_frame(&wire).unwrap();
    assert_eq!(used, 12 + 4);
    assert_eq!(back.type_tag(), tag);
    assert_eq!(back.unpack::<u32>().unwrap(), 0x1234_5678u32);
}

#[test]
fn frame_too_short_is_rejected() {
    assert!(Envelope::decode_frame(&[0u8; 11]).is_none());
    let e = Envelope::pack(5u64);
    let wire = e.encode_frame();
    // truncating the payload makes the frame undecodable
    assert!(Envelope::decode_frame(&wire[..wire.len() - 1]).is_none());
}

#[test]
fn frame_string_payload() {
    let e = Envelope::pack(String::from("over the wire"));
    let wire = e.encode_frame();
    let (back, used) = Envelope::decode_frame(&wire).unwrap();
    assert_eq!(used, wire.len());
    assert_eq!(back.unpack::<String>().unwrap(), "over the wire");
}

#[test]
fn describe_names_tag_and_length() {
    let e = Envelope::pack(7u32);
    let tag = e.type_tag();
    assert_eq!(e.describe(), format!("envelope tag={} len=4", tag));
    let e = Envelope::pack(String::new());
    let tag = e.type_tag();
    assert_eq!(e.describe(), format!("envelope tag={} len=0", tag));
}
