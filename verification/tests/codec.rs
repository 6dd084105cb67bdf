use rustudp::serialize::MalformedMessage;
use rustudp::serialize::SerialMessage;
use rustudp::serialize::PAYLOAD_START;

fn same(left: &SerialMessage, right: &SerialMessage) -> bool {
    left.read_operation() == right.read_operation()
        && left.read_name() == right.read_name()
        && left.has_offset() == right.has_offset()
        && (!left.has_offset() || left.read_offset() == right.read_offset())
        && left.has_number() == right.has_number()
        && (!left.has_number() || left.read_number() == right.read_number())
        && left.has_sequence() == right.has_sequence()
        && (!left.has_sequence() || left.read_sequence() == right.read_sequence())
        && left.has_content() == right.has_content()
        && (!left.has_content() || left.read_content() == right.read_content())
}

fn round_trip(message: &SerialMessage) -> SerialMessage {
    assert!(message.fits());
    SerialMessage::deserialize(message.serialize_message()).unwrap()
}

#[test]
fn test_serialization() {
    let mut v1 = Vec::with_capacity(16);
    v1.push(1);
    let mut v2 = Vec::with_capacity(16);
    v2.push(2);
    v1.extend(v2);
    assert_eq!(v1, vec![1, 2]);

    let ser = SerialMessage::new(
        1,
        "test.txt".to_string(),
        None,
        Some(8),
        Some(vec![8, 10, 45, 2]),
        None,
    );
    println!("{:?}", ser.serialize_message());
    let de = SerialMessage::deserialize(ser.serialize_message());
    println!("{:?}", de);

    assert_eq!(
        ser.serialize_message(),
        vec![
            1, 11, 18, 0, 0, 19, 19, 20, 23, 0, 0, 116, 101, 115, 116, 46, 116, 120, 116, 8, 8,
            10, 45, 2
        ]
    );
    let de = de.unwrap();
    assert_eq!(de.read_operation(), 1);
    assert_eq!(de.read_name(), "test.txt");
    assert!(!de.has_offset());
    assert_eq!(de.read_number(), 8);
    assert_eq!(de.read_sequence(), vec![8, 10, 45, 2]);
    assert!(!de.has_content());
}

#[test]
fn scenario_create_message() {
    let request = SerialMessage::new(1, "f.txt".to_string(), None, None, None, Some(vec![1, 2, 3]));
    let bytes = request.serialize_message();
    assert_eq!(
        bytes,
        vec![1, 11, 15, 0, 0, 0, 0, 0, 0, 16, 18, 102, 46, 116, 120, 116, 1, 2, 3]
    );
    let decoded = SerialMessage::deserialize(bytes).unwrap();
    assert_eq!(decoded.read_operation(), 1);
    assert_eq!(decoded.read_name(), "f.txt");
    assert_eq!(decoded.read_content(), vec![1, 2, 3]);
    assert!(!decoded.has_offset());
    assert!(!decoded.has_number());
    assert!(!decoded.has_sequence());
}

#[test]
fn every_field_present_has_these_bytes() {
    let message = SerialMessage::new(
        3,
        "GAO.txt".to_string(),
        Some(3),
        Some(4),
        Some(b"PENG".to_vec()),
        Some(b"Content".to_vec()),
    );
    assert!(message.fits());
    let bytes = message.serialize_message();
    let mut expected = vec![3u8, 11, 17, 18, 18, 19, 19, 20, 23, 24, 30];
    expected.extend_from_slice(b"GAO.txt");
    expected.extend_from_slice(&[3, 4]);
    expected.extend_from_slice(b"PENG");
    expected.extend_from_slice(b"Content");
    assert_eq!(bytes, expected);
    assert_eq!(bytes.len(), 31);
    assert!(same(&SerialMessage::deserialize(bytes).unwrap(), &message));
}

#[test]
fn round_trip_over_all_combinations_of_fields() {
    for mask in 0..16u32 {
        let offset = if mask & 1 != 0 { Some(200) } else { None };
        let number = if mask & 2 != 0 { Some(0) } else { None };
        let sequence = if mask & 4 != 0 { Some(vec![0, 255, 7]) } else { None };
        let content = if mask & 8 != 0 { Some(b"hello".to_vec()) } else { None };
        for operation in [0, 1, 6, 255] {
            let message = SerialMessage::new(
                operation,
                "name.bin".to_string(),
                offset,
                number,
                sequence.clone(),
                content.clone(),
            );
            let back = round_trip(&message);
            assert!(same(&back, &message));
            assert_eq!(back.has_offset(), mask & 1 != 0);
            assert_eq!(back.has_number(), mask & 2 != 0);
            assert_eq!(back.has_sequence(), mask & 4 != 0);
            assert_eq!(back.has_content(), mask & 8 != 0);
        }
    }
}

#[test]
fn header_is_eleven_bytes() {
    assert_eq!(PAYLOAD_START, 11);
    let message = SerialMessage::new(6, "m".to_string(), None, None, None, None);
    assert_eq!(message.serialize_message(), vec![6, 11, 11, 0, 0, 0, 0, 0, 0, 0, 0, 109]);
}

#[test]
fn present_but_empty_fields_round_trip() {
    let message = SerialMessage::new(1, "e".to_string(), None, None, Some(vec![]), Some(vec![]));
    let bytes = message.serialize_message();
    assert_eq!(bytes, vec![1, 11, 11, 0, 0, 0, 0, 12, 11, 12, 11, 101]);
    let back = SerialMessage::deserialize(bytes).unwrap();
    assert!(back.has_sequence());
    assert!(back.has_content());
    assert_eq!(back.read_sequence(), Vec::<u8>::new());
    assert_eq!(back.read_content(), Vec::<u8>::new());
    assert!(same(&back, &message));
}

#[test]
fn empty_name_round_trips() {
    let message = SerialMessage::new(1, String::new(), None, None, None, Some(vec![4]));
    let bytes = message.serialize_message();
    assert_eq!(bytes, vec![1, 11, 10, 0, 0, 0, 0, 0, 0, 11, 11, 4]);
    assert!(same(&SerialMessage::deserialize(bytes).unwrap(), &message));
}

#[test]
fn two_zero_bytes_are_a_present_field() {
    let message = SerialMessage::new(2, "z".to_string(), None, None, Some(vec![0, 0]), Some(vec![0, 0]));
    let bytes = message.serialize_message();
    assert_eq!(bytes, vec![2, 11, 11, 0, 0, 0, 0, 12, 13, 14, 15, 122, 0, 0, 0, 0]);
    let back = SerialMessage::deserialize(bytes).unwrap();
    assert_eq!(back.read_sequence(), vec![0, 0]);
    assert_eq!(back.read_content(), vec![0, 0]);
}

#[test]
fn names_beyond_ascii_round_trip() {
    let message = SerialMessage::new(1, "文件é.txt".to_string(), Some(1), None, None, None);
    let back = round_trip(&message);
    assert_eq!(back.read_name(), "文件é.txt");
    assert_eq!(back.read_offset(), 1);
    let bytes = message.serialize_message();
    assert_eq!(bytes[1], 11);
    assert_eq!(bytes[2] as usize, 10 + "文件é.txt".len());
    assert_eq!(&bytes[11..11 + "文件é.txt".len()], "文件é.txt".as_bytes());
}

#[test]
fn integers_keep_only_their_low_byte() {
    let message = SerialMessage::new(257, "t".to_string(), Some(300), Some(-1), None, None);
    let bytes = message.serialize_message();
    assert_eq!(bytes, vec![1, 11, 11, 12, 12, 13, 13, 0, 0, 0, 0, 116, 44, 255]);
    let back = SerialMessage::deserialize(bytes).unwrap();
    assert_eq!(back.read_operation(), 1);
    assert_eq!(back.read_offset(), 44);
    assert_eq!(back.read_number(), 255);
    let low = SerialMessage::new(i32::MIN, "t".to_string(), Some(256), Some(i32::MAX), None, None);
    let back = round_trip(&low);
    assert_eq!(back.read_operation(), 0);
    assert_eq!(back.read_offset(), 0);
    assert_eq!(back.read_number(), 255);
}

#[test]
fn integers_in_byte_range_round_trip_exactly() {
    for value in [0, 1, 127, 128, 254, 255] {
        let message = SerialMessage::new(value, "v".to_string(), Some(value), Some(255 - value), None, None);
        let back = round_trip(&message);
        assert_eq!(back.read_operation(), value);
        assert_eq!(back.read_offset(), value);
        assert_eq!(back.read_number(), 255 - value);
    }
}

#[test]
fn fits_up_to_the_last_index_of_a_byte() {
    let longest = SerialMessage::new(1, "n".repeat(245), None, None, None, None);
    assert!(longest.fits());
    let bytes = longest.serialize_message();
    assert_eq!(bytes.len(), 256);
    assert_eq!(bytes[1], 11);
    assert_eq!(bytes[2], 255);
    assert!(same(&SerialMessage::deserialize(bytes).unwrap(), &longest));

    let too_long = SerialMessage::new(1, "n".repeat(246), None, None, None, None);
    assert!(!too_long.fits());

    let split = SerialMessage::new(1, "n".repeat(100), Some(1), Some(2), Some(vec![3; 100]), Some(vec![4; 43]));
    assert!(split.fits());
    let bytes = split.serialize_message();
    assert_eq!(bytes.len(), 256);
    assert_eq!(&bytes[1..11], &[11, 110, 111, 111, 112, 112, 113, 212, 213, 255]);
    assert!(same(&SerialMessage::deserialize(bytes).unwrap(), &split));

    let over = SerialMessage::new(1, "n".repeat(100), Some(1), Some(2), Some(vec![3; 100]), Some(vec![4; 44]));
    assert!(!over.fits());
}

#[test]
fn an_empty_field_needs_a_start_that_is_a_byte() {
    let at_the_edge = SerialMessage::new(1, "n".repeat(244), None, None, None, Some(vec![]));
    assert!(at_the_edge.fits());
    let bytes = at_the_edge.serialize_message();
    assert_eq!(bytes[9], 255);
    assert_eq!(bytes[10], 254);
    assert!(same(&SerialMessage::deserialize(bytes).unwrap(), &at_the_edge));

    let past_the_edge = SerialMessage::new(1, "n".repeat(245), None, None, None, Some(vec![]));
    assert!(!past_the_edge.fits());
    let number_past = SerialMessage::new(1, "n".repeat(245), None, Some(1), None, None);
    assert!(!number_past.fits());
    let offset_last = SerialMessage::new(1, "n".repeat(244), Some(1), None, None, None);
    assert!(offset_last.fits());
    let both = SerialMessage::new(1, "n".repeat(244), Some(1), Some(1), None, None);
    assert!(!both.fits());
}

#[test]
fn short_buffers_are_refused() {
    for len in 0..11 {
        let buffer = vec![0u8; len];
        assert_eq!(SerialMessage::deserialize(buffer).unwrap_err(), MalformedMessage::ShortHeader);
    }
    let ten = vec![1, 11, 10, 0, 0, 0, 0, 0, 0, 0];
    assert_eq!(SerialMessage::deserialize(ten).unwrap_err(), MalformedMessage::ShortHeader);
}

#[test]
fn header_alone_is_a_message_with_an_empty_name() {
    let buffer = vec![5, 11, 10, 0, 0, 0, 0, 0, 0, 0, 0];
    let message = SerialMessage::deserialize(buffer).unwrap();
    assert_eq!(message.read_operation(), 5);
    assert_eq!(message.read_name(), "");
    assert!(!message.has_offset() && !message.has_number());
    assert!(!message.has_sequence() && !message.has_content());
}

#[test]
fn fields_outside_the_buffer_are_refused() {
    let good = vec![1, 11, 12, 13, 13, 14, 14, 15, 16, 17, 18, 97, 98, 1, 2, 3, 4, 5, 6];
    assert!(SerialMessage::deserialize(good.clone()).is_ok());

    let mut name_past_end = good.clone();
    name_past_end[2] = 19;
    assert_eq!(SerialMessage::deserialize(name_past_end).unwrap_err(), MalformedMessage::FieldOutOfBounds);

    let mut name_backwards = good.clone();
    name_backwards[1] = 14;
    name_backwards[2] = 12;
    assert_eq!(SerialMessage::deserialize(name_backwards).unwrap_err(), MalformedMessage::FieldOutOfBounds);

    let mut offset_past_end = good.clone();
    offset_past_end[3] = 19;
    assert_eq!(SerialMessage::deserialize(offset_past_end).unwrap_err(), MalformedMessage::FieldOutOfBounds);

    let mut number_past_end = good.clone();
    number_past_end[5] = 200;
    assert_eq!(SerialMessage::deserialize(number_past_end).unwrap_err(), MalformedMessage::FieldOutOfBounds);

    let mut sequence_past_end = good.clone();
    sequence_past_end[8] = 19;
    assert_eq!(SerialMessage::deserialize(sequence_past_end).unwrap_err(), MalformedMessage::FieldOutOfBounds);

    let mut content_backwards = good.clone();
    content_backwards[9] = 18;
    content_backwards[10] = 16;
    assert_eq!(SerialMessage::deserialize(content_backwards).unwrap_err(), MalformedMessage::FieldOutOfBounds);

    let mut content_past_end = good.clone();
    content_past_end[10] = 255;
    assert_eq!(SerialMessage::deserialize(content_past_end).unwrap_err(), MalformedMessage::FieldOutOfBounds);
}

#[test]
fn last_byte_of_the_buffer_is_in_bounds() {
    let good = vec![1, 11, 12, 0, 0, 18, 0, 0, 0, 17, 18, 97, 98, 1, 2, 3, 4, 5, 6];
    let message = SerialMessage::deserialize(good).unwrap();
    assert_eq!(message.read_name(), "ab");
    assert_eq!(message.read_number(), 6);
    assert_eq!(message.read_content(), vec![5, 6]);
}

#[test]
fn a_zero_start_means_absent_whatever_the_end() {
    let buffer = vec![1, 11, 11, 0, 9, 0, 200, 0, 3, 0, 255, 97];
    let message = SerialMessage::deserialize(buffer).unwrap();
    assert_eq!(message.read_name(), "a");
    assert!(!message.has_offset());
    assert!(!message.has_number());
    assert!(!message.has_sequence());
    assert!(!message.has_content());
}

#[test]
fn an_integer_is_read_at_its_start_only() {
    let buffer = vec![1, 11, 11, 12, 0, 13, 99, 0, 0, 0, 0, 97, 42, 43];
    let message = SerialMessage::deserialize(buffer).unwrap();
    assert_eq!(message.read_offset(), 42);
    assert_eq!(message.read_number(), 43);
}

#[test]
fn a_name_that_is_not_utf8_is_refused() {
    let buffer = vec![1, 11, 12, 0, 0, 0, 0, 0, 0, 0, 0, 0xff, 0xfe];
    assert_eq!(SerialMessage::deserialize(buffer).unwrap_err(), MalformedMessage::InvalidName);
    let cut = vec![1, 11, 12, 0, 0, 0, 0, 0, 0, 0, 0, 0xe6, 0x96];
    assert_eq!(SerialMessage::deserialize(cut).unwrap_err(), MalformedMessage::InvalidName);
    let whole = vec![1, 11, 13, 0, 0, 0, 0, 0, 0, 0, 0, 0xe6, 0x96, 0x87];
    assert_eq!(SerialMessage::deserialize(whole).unwrap().read_name(), "文");
}

#[test]
fn bounds_are_checked_before_the_name() {
    let buffer = vec![1, 11, 12, 0, 0, 0, 0, 0, 0, 40, 41, 0xff, 0xfe];
    assert_eq!(SerialMessage::deserialize(buffer).unwrap_err(), MalformedMessage::FieldOutOfBounds);
}

#[test]
fn clone_is_an_equal_message() {
    let message = SerialMessage::new(4, "c".to_string(), Some(5), None, Some(vec![1]), None);
    let copy = message.clone();
    assert!(same(&copy, &message));
    assert_eq!(copy.serialize_message(), message.serialize_message());
}

#[test]
fn readers_give_what_was_built() {
    let message = SerialMessage::new(
        -7,
        "r".to_string(),
        Some(100_000),
        Some(-3),
        Some(vec![1, 2]),
        Some(vec![3]),
    );
    assert_eq!(message.read_operation(), -7);
    assert_eq!(message.read_name(), "r");
    assert_eq!(message.read_offset(), 100_000);
    assert_eq!(message.read_number(), -3);
    assert_eq!(message.read_sequence(), vec![1, 2]);
    assert_eq!(message.read_content(), vec![3]);
}

#[test]
fn try_serialize_gives_the_bytes_or_nothing() {
    let small = SerialMessage::new(1, "s".to_string(), None, None, None, Some(vec![1]));
    assert_eq!(small.try_serialize(), Some(small.serialize_message()));
    assert_eq!(small.try_serialize().unwrap(), vec![1, 11, 11, 0, 0, 0, 0, 0, 0, 12, 12, 115, 1]);
    let large = SerialMessage::new(1, "l".to_string(), None, None, None, Some(vec![0; 245]));
    assert!(!large.fits());
    assert_eq!(large.try_serialize(), None);
    let largest = SerialMessage::new(1, "l".to_string(), None, None, None, Some(vec![0; 244]));
    assert_eq!(largest.try_serialize().unwrap().len(), 256);
}
