use async_state_machine_example::record::encode_all;
use async_state_machine_example::record::Object;

fn object_of_len(object_type: u8, len: usize) -> Object {
    Object { object_type, data: vec![0xab; len] }
}

#[test]
fn length_prefix_counts_data_and_type() {
    assert_eq!(object_of_len(0, 0).length_prefix(), [1, 0]);
    assert_eq!(object_of_len(0, 4).length_prefix(), [5, 0]);
    assert_eq!(object_of_len(1, 8).length_prefix(), [9, 0]);
}

#[test]
fn length_prefix_is_little_endian() {
    assert_eq!(object_of_len(0, 254).length_prefix(), [255, 0]);
    assert_eq!(object_of_len(0, 255).length_prefix(), [0, 1]);
    assert_eq!(object_of_len(0, 256).length_prefix(), [1, 1]);
    assert_eq!(object_of_len(0, 0x1233).length_prefix(), [0x34, 0x12]);
    assert_eq!(object_of_len(0, 0xfffe).length_prefix(), [0xff, 0xff]);
}

#[test]
fn length_prefix_wraps_at_two_bytes() {
    assert_eq!(object_of_len(0, 0xffff).length_prefix(), [0, 0]);
    assert_eq!(object_of_len(0, 0x1_0000).length_prefix(), [1, 0]);
    assert_eq!(object_of_len(0, 0x2_0003).length_prefix(), [4, 0]);
}

#[test]
fn length_prefix_ignores_the_type() {
    assert_eq!(object_of_len(0, 10).length_prefix(), object_of_len(200, 10).length_prefix());
}

#[test]
fn encode_lays_out_length_type_and_data() {
    let object = Object { object_type: 1, data: vec![1, 2, 3, 4, 5, 6, 7, 8] };
    assert_eq!(object.encode(), [9, 0, 1, 1, 2, 3, 4, 5, 6, 7, 8]);
}

#[test]
fn encode_of_empty_data_is_the_header() {
    let object = Object { object_type: 7, data: vec![] };
    assert_eq!(object.encode(), [1, 0, 7]);
}

#[test]
fn encode_is_three_bytes_longer_than_the_data() {
    for len in [0usize, 1, 2, 255, 256, 1000, 0xffff, 0x1_0000] {
        let encoded = object_of_len(3, len).encode();
        assert_eq!(encoded.len(), 3 + len);
        assert_eq!(encoded[2], 3);
        assert!(encoded[3..].iter().all(|byte| *byte == 0xab));
    }
}

#[test]
fn encode_starts_with_the_length_prefix() {
    let object = object_of_len(9, 0x0203);
    let encoded = object.encode();
    assert_eq!(encoded[0..2], object.length_prefix());
    assert_eq!(encoded[0..2], [0x04, 0x02]);
}

#[test]
fn encode_all_of_no_objects_is_empty() {
    assert_eq!(encode_all(&[]), []);
}

#[test]
fn encode_all_of_one_object_is_its_record() {
    let objects = vec![Object { object_type: 1, data: vec![1, 2, 3, 4, 5, 6, 7, 8] }];
    assert_eq!(encode_all(&objects), [9, 0, 1, 1, 2, 3, 4, 5, 6, 7, 8]);
    assert_eq!(encode_all(&objects), objects[0].encode());
}

#[test]
fn encode_all_lays_the_records_end_to_end() {
    let objects = vec![
        Object { object_type: 0, data: vec![1, 2, 3, 4] },
        Object { object_type: 1, data: vec![1, 2, 3, 4, 5, 6, 7, 8] },
    ];
    assert_eq!(
        encode_all(&objects),
        [5, 0, 0, 1, 2, 3, 4, 9, 0, 1, 1, 2, 3, 4, 5, 6, 7, 8]
    );
}

#[test]
fn encode_all_keeps_empty_records_in_their_place() {
    let objects = vec![
        Object { object_type: 7, data: vec![] },
        Object { object_type: 8, data: vec![0x21] },
        Object { object_type: 9, data: vec![] },
    ];
    assert_eq!(encode_all(&objects), [1, 0, 7, 2, 0, 8, 0x21, 1, 0, 9]);
}
