use firmware_upload::checksum::{hex_digit, verify_checksum};
use firmware_upload::error::IngestError;
use firmware_upload::fields::{extract_single_field, to_string, FormField};
use firmware_upload::firmware::{create_firmware, NewFirmware};
use firmware_upload::image::{
    blank, checked_record, decode_image, decode_line, find_line_end, read_record, trim_bounds,
};
use firmware_upload::multipart::{
    extract_field_value, flatten_items, gather_chunks, handle_multipart_item, item_nests_within,
    items_nest_within, MultipartItem, MAX_NESTING,
};
use firmware_upload::record::{ihex_to_bin, LineFault, Record};

const DATA_LINE: &str = ":0300300002337A1E";
const END_LINE: &str = ":00000001FF";

fn field(name: &str, payload: &[u8]) -> FormField {
    FormField {
        disposition: Some(format!("form-data; name=\"{}\"", name)),
        payload: Some(payload.to_vec()),
    }
}

fn upload(name: &str, kind: &str, version: &str, file: &str) -> Vec<FormField> {
    vec![
        field("firmware_name", name.as_bytes()),
        field("firmware_type", kind.as_bytes()),
        field("firmware_version", version.as_bytes()),
        field("firmware_file", file.as_bytes()),
    ]
}

fn leaf(name: &str, chunks: &[&[u8]]) -> MultipartItem {
    MultipartItem::Field {
        disposition: Some(name.to_string()),
        chunks: Some(chunks.iter().map(|c| c.to_vec()).collect()),
    }
}

fn nested(levels: usize) -> MultipartItem {
    let mut item = leaf("deep", &[b"x"]);
    for _ in 0..levels {
        item = MultipartItem::Nested(vec![item]);
    }
    item
}

fn hex_value(c: u8) -> u32 {
    (c as char).to_digit(16).unwrap()
}

#[test]
fn data_line_is_one_data_record() {
    let record = read_record(DATA_LINE.as_bytes());
    assert_eq!(record, Ok(Record::Data { offset: 0x0030, value: vec![0x02, 0x33, 0x7A] }));
    assert_eq!(decode_image(DATA_LINE.as_bytes()), Ok(vec![0x02, 0x33, 0x7A]));
}

#[test]
fn end_of_file_line_adds_nothing() {
    assert_eq!(read_record(END_LINE.as_bytes()), Ok(Record::EndOfFile));
    assert_eq!(decode_image(END_LINE.as_bytes()), Ok(vec![]));
}

#[test]
fn upload_becomes_request() {
    let fields = upload("boot", "1", "2", DATA_LINE);
    let expected = NewFirmware {
        type_id: 1,
        version_id: 2,
        name: "boot".to_string(),
        binary: vec![0x02, 0x33, 0x7A],
    };
    assert_eq!(create_firmware(&fields), Ok(expected));
}

#[test]
fn wrong_checksum_rejects_upload() {
    let fields = upload("boot", "1", "2", ":0300300002337A1F");
    assert_eq!(create_firmware(&fields), Err(IngestError::IhexFormat));
    assert_eq!(decode_image(b":0300300002337A1F"), Err(IngestError::IhexFormat));
}

#[test]
fn non_numeric_type_rejects_upload() {
    let fields = upload("boot", "abc", "2", DATA_LINE);
    assert_eq!(create_firmware(&fields), Err(IngestError::Parse));
}

#[test]
fn non_numeric_version_rejects_upload() {
    let fields = upload("boot", "1", "2.5", DATA_LINE);
    assert_eq!(create_firmware(&fields), Err(IngestError::Parse));
}

#[test]
fn file_errors_come_before_number_errors() {
    let fields = upload("boot", "abc", "2", ":0300300002337A1F");
    assert_eq!(create_firmware(&fields), Err(IngestError::IhexFormat));
}

#[test]
fn text_errors_come_first() {
    let mut fields = upload("boot", "abc", "2", ":0300300002337A1F");
    fields[0].payload = Some(vec![0xff, 0xfe]);
    assert_eq!(create_firmware(&fields), Err(IngestError::Decode));
}

#[test]
fn numbers_follow_the_integer_grammar() {
    let request = |kind: &str, version: &str| create_firmware(&upload("n", kind, version, ""));
    assert_eq!(request("+1", "-2").map(|f| (f.type_id, f.version_id)), Ok((1, -2)));
    assert_eq!(request("007", "0").map(|f| (f.type_id, f.version_id)), Ok((7, 0)));
    assert_eq!(
        request("2147483647", "-2147483648").map(|f| (f.type_id, f.version_id)),
        Ok((i32::MAX, i32::MIN))
    );
    assert_eq!(request("2147483648", "1"), Err(IngestError::Parse));
    assert_eq!(request("1", "-2147483649"), Err(IngestError::Parse));
    assert_eq!(request("", "1"), Err(IngestError::Parse));
    assert_eq!(request("+", "1"), Err(IngestError::Parse));
    assert_eq!(request("-", "1"), Err(IngestError::Parse));
    assert_eq!(request(" 1", "1"), Err(IngestError::Parse));
    assert_eq!(request("1", "1 "), Err(IngestError::Parse));
    assert_eq!(request("1", "--1"), Err(IngestError::Parse));
}

#[test]
fn missing_file_gives_empty_image() {
    let fields = vec![
        field("firmware_name", b"boot"),
        field("firmware_type", b"1"),
        field("firmware_version", b"2"),
    ];
    let firmware = create_firmware(&fields).unwrap();
    assert_eq!(firmware.binary, Vec::<u8>::new());
    assert_eq!(firmware.name, "boot");
}

#[test]
fn missing_number_is_a_parse_error() {
    let fields = vec![field("firmware_name", b"boot"), field("firmware_file", b"")];
    assert_eq!(create_firmware(&fields), Err(IngestError::Parse));
}

#[test]
fn data_records_are_joined_in_line_order() {
    let text = format!("{}\n:02000000AABB99\n{}\n", DATA_LINE, END_LINE);
    let image = decode_image(text.as_bytes()).unwrap();
    assert_eq!(image, vec![0x02, 0x33, 0x7A, 0xAA, 0xBB]);
    assert_eq!(image.len(), 3 + 2);
}

#[test]
fn addresses_place_nothing() {
    let text = ":02000000AABB99\n:0300300002337A1E";
    assert_eq!(decode_image(text.as_bytes()), Ok(vec![0xAA, 0xBB, 0x02, 0x33, 0x7A]));
}

#[test]
fn other_record_types_add_nothing() {
    let text = ":020000040800F2\n:0300300002337A1E\n:00000001FF";
    assert_eq!(decode_image(text.as_bytes()), Ok(vec![0x02, 0x33, 0x7A]));
    assert_eq!(read_record(b":020000040800F2"), Ok(Record::ExtendedLinearAddress(0x0800)));
    assert_eq!(read_record(b":020000021200EA"), Ok(Record::ExtendedSegmentAddress(0x1200)));
    assert_eq!(
        read_record(b":0400000300003800C1"),
        Ok(Record::StartSegmentAddress { cs: 0x0000, ip: 0x3800 })
    );
    assert_eq!(read_record(b":04000005000000CD2A"), Ok(Record::StartLinearAddress(0xCD)));
}

#[test]
fn unknown_record_type_is_its_own_error() {
    assert_eq!(read_record(b":00000006FA"), Err(IngestError::UnsupportedRecordType));
    assert_eq!(decode_image(b":00000006FA"), Err(IngestError::UnsupportedRecordType));
}

#[test]
fn malformed_lines_are_format_errors() {
    assert_eq!(read_record(b"0300300002337A1E"), Err(IngestError::IhexFormat));
    assert_eq!(read_record(b":03003000"), Err(IngestError::IhexFormat));
    assert_eq!(read_record(b":0300300002337A1"), Err(IngestError::IhexFormat));
    assert_eq!(read_record(b":0300300002337G1E"), Err(IngestError::IhexFormat));
    assert_eq!(read_record(b":0400300002337A1D"), Err(IngestError::IhexFormat));
    assert_eq!(read_record(b""), Err(IngestError::IhexFormat));
    assert_eq!(read_record(b" :00000001FF"), Err(IngestError::IhexFormat));
}

#[test]
fn line_that_is_no_text_is_a_decode_error() {
    assert_eq!(read_record(&[b':', 0xff, 0xfe]), Err(IngestError::Decode));
    assert_eq!(decode_image(&[b':', 0xff, 0xfe, b'\n']), Err(IngestError::Decode));
}

#[test]
fn first_bad_line_decides() {
    let text = ":0300300002337A1E\n:00000006FA\nnonsense\n";
    assert_eq!(decode_image(text.as_bytes()), Err(IngestError::UnsupportedRecordType));
    let text = ":0300300002337A1E\nnonsense\n:00000006FA\n";
    assert_eq!(decode_image(text.as_bytes()), Err(IngestError::IhexFormat));
}

#[test]
fn blank_lines_and_surrounding_whitespace_are_skipped() {
    let text = "\r\n  :0300300002337A1E\t\r\n\n \t \n:00000001FF  ";
    assert_eq!(decode_image(text.as_bytes()), Ok(vec![0x02, 0x33, 0x7A]));
    assert_eq!(decode_image(b""), Ok(vec![]));
    assert_eq!(decode_image(b"\n\n\n"), Ok(vec![]));
    assert_eq!(decode_image(b"   "), Ok(vec![]));
}

#[test]
fn whitespace_inside_a_line_is_an_error() {
    assert_eq!(decode_image(b":03003000 02337A1E"), Err(IngestError::IhexFormat));
}

#[test]
fn decode_line_takes_a_trimmed_line() {
    assert_eq!(decode_line(b""), Ok(vec![]));
    assert_eq!(decode_line(DATA_LINE.as_bytes()), Ok(vec![0x02, 0x33, 0x7A]));
    assert_eq!(decode_line(END_LINE.as_bytes()), Ok(vec![]));
    assert_eq!(decode_line(b"x"), Err(IngestError::IhexFormat));
}

#[test]
fn valid_line_sums_to_zero() {
    for line in [DATA_LINE, END_LINE, ":02000000AABB99", ":020000040800F2"] {
        assert!(read_record(line.as_bytes()).is_ok());
        let digits = &line.as_bytes()[1..];
        let mut sum: u32 = 0;
        for pair in digits.chunks(2) {
            sum += hex_value(pair[0]) * 16 + hex_value(pair[1]);
        }
        assert_eq!(sum % 256, 0);
    }
}

#[test]
fn any_changed_digit_breaks_the_line() {
    let original = DATA_LINE.as_bytes();
    for position in 1..original.len() {
        for digit in b"0123456789ABCDEF" {
            if hex_value(*digit) == hex_value(original[position]) {
                continue;
            }
            let mut line = original.to_vec();
            line[position] = *digit;
            assert_eq!(read_record(&line), Err(IngestError::IhexFormat));
            assert_eq!(decode_image(&line), Err(IngestError::IhexFormat));
        }
    }
}

#[test]
fn encoded_image_decodes_to_itself() {
    let image: Vec<u8> = (0..100u32).map(|i| ((i * 7 + 3) % 256) as u8).collect();
    let mut text = String::new();
    for (n, block) in image.chunks(16).enumerate() {
        let record = ihex::Record::Data { offset: (n * 16) as u16, value: block.to_vec() };
        text.push_str(&record.to_record_string().unwrap());
        text.push('\n');
    }
    text.push_str(&ihex::Record::EndOfFile.to_record_string().unwrap());
    text.push('\n');
    assert_eq!(decode_image(text.as_bytes()), Ok(image));
}

#[test]
fn ihex_to_bin_keeps_only_data() {
    assert_eq!(ihex_to_bin(&Record::Data { offset: 7, value: vec![1, 2, 3] }), vec![1, 2, 3]);
    assert_eq!(ihex_to_bin(&Record::Data { offset: 7, value: vec![] }), Vec::<u8>::new());
    assert_eq!(ihex_to_bin(&Record::EndOfFile), Vec::<u8>::new());
    assert_eq!(ihex_to_bin(&Record::ExtendedSegmentAddress(0x1234)), Vec::<u8>::new());
    assert_eq!(ihex_to_bin(&Record::StartSegmentAddress { cs: 1, ip: 2 }), Vec::<u8>::new());
    assert_eq!(ihex_to_bin(&Record::ExtendedLinearAddress(0x1234)), Vec::<u8>::new());
    assert_eq!(ihex_to_bin(&Record::StartLinearAddress(0x12345678)), Vec::<u8>::new());
}

#[test]
fn checked_record_maps_each_fault() {
    assert_eq!(checked_record(Ok(Record::EndOfFile)), Ok(Record::EndOfFile));
    assert_eq!(checked_record(Err(LineFault::Malformed)), Err(IngestError::IhexFormat));
    assert_eq!(
        checked_record(Err(LineFault::UnsupportedType)),
        Err(IngestError::UnsupportedRecordType)
    );
}

#[test]
fn line_end_and_trim_bounds() {
    let text = b"ab\n  cd \r\nlast";
    assert_eq!(find_line_end(text, 0), 2);
    assert_eq!(find_line_end(text, 2), 2);
    assert_eq!(find_line_end(text, 3), 9);
    assert_eq!(find_line_end(text, 10), 14);
    assert_eq!(find_line_end(text, 14), 14);
    assert_eq!(trim_bounds(text, 3, 9), (5, 7));
    assert_eq!(trim_bounds(text, 0, 2), (0, 2));
    assert_eq!(trim_bounds(b"   ", 0, 3), (3, 3));
    assert_eq!(trim_bounds(b"", 0, 0), (0, 0));
}

#[test]
fn blank_bytes() {
    for b in [b' ', b'\t', b'\n', 0x0b, 0x0c, b'\r'] {
        assert!(blank(b));
    }
    for b in [0x00, 0x08, 0x0e, 0x1f, b':', b'0', 0x85, 0xa0] {
        assert!(!blank(b));
    }
}

#[test]
fn first_matching_field_wins() {
    let fields = vec![
        field("other", b"x"),
        field("firmware_name", b"first"),
        field("firmware_name", b"second"),
    ];
    assert_eq!(extract_single_field(&fields, "firmware_name"), b"first".to_vec());
    assert_eq!(extract_single_field(&fields, "other"), b"x".to_vec());
    assert_eq!(extract_single_field(&fields, "absent"), Vec::<u8>::new());
    assert_eq!(extract_single_field(&Vec::new(), "firmware_name"), Vec::<u8>::new());
}

#[test]
fn field_is_found_by_substring() {
    let fields = vec![field("firmware_name_long", b"long"), field("firmware_name", b"short")];
    assert_eq!(extract_single_field(&fields, "firmware_name"), b"long".to_vec());
    assert_eq!(extract_single_field(&fields, "name_long"), b"long".to_vec());
    assert_eq!(extract_single_field(&fields, "firmware_names"), Vec::<u8>::new());
    assert_eq!(extract_single_field(&fields, ""), b"long".to_vec());
}

#[test]
fn field_without_header_or_payload() {
    let fields = vec![
        FormField { disposition: None, payload: Some(b"hidden".to_vec()) },
        FormField { disposition: Some("name=\"firmware_file\"".to_string()), payload: None },
        field("firmware_file", b"late"),
    ];
    assert_eq!(extract_single_field(&fields, "firmware_file"), Vec::<u8>::new());
    assert_eq!(extract_single_field(&fields, "hidden"), Vec::<u8>::new());
}

#[test]
fn to_string_reads_utf8() {
    assert_eq!(to_string(b"boot"), Ok("boot".to_string()));
    assert_eq!(to_string("gr\u{fc}n \u{1f980}".as_bytes()), Ok("gr\u{fc}n \u{1f980}".to_string()));
    assert_eq!(to_string(b""), Ok(String::new()));
    assert_eq!(to_string(&[0x62, 0xff]), Err(IngestError::Decode));
    assert_eq!(to_string(&[0xc3]), Err(IngestError::Decode));
}

#[test]
fn chunks_are_gathered_in_order() {
    assert_eq!(gather_chunks(&vec![b"ab".to_vec(), vec![], b"cde".to_vec()]), b"abcde".to_vec());
    assert_eq!(gather_chunks(&vec![]), Vec::<u8>::new());
}

#[test]
fn field_value_of_a_multipart_field() {
    let header = Some("form-data; name=\"firmware_name\"".to_string());
    let made = extract_field_value(&header, &Some(vec![b"bo".to_vec(), b"ot".to_vec()]));
    assert_eq!(made, FormField { disposition: header.clone(), payload: Some(b"boot".to_vec()) });
    let failed = extract_field_value(&header, &None);
    assert_eq!(failed, FormField { disposition: header.clone(), payload: None });
    let empty = extract_field_value(&None, &Some(vec![vec![], vec![]]));
    assert_eq!(empty, FormField { disposition: None, payload: None });
    let none = extract_field_value(&None, &Some(vec![]));
    assert_eq!(none, FormField { disposition: None, payload: None });
}

#[test]
fn nested_items_flatten_depth_first() {
    let body = vec![
        leaf("a", &[b"1"]),
        MultipartItem::Nested(vec![
            leaf("b", &[b"2"]),
            MultipartItem::Nested(vec![leaf("c", &[b"3"]), leaf("d", &[b"4"])]),
            MultipartItem::Nested(vec![]),
            leaf("e", &[b"5"]),
        ]),
        leaf("f", &[b"6"]),
    ];
    let fields = flatten_items(&body).unwrap();
    assert_eq!(fields.len(), 6);
    let names: Vec<String> = fields.iter().map(|f| f.disposition.clone().unwrap()).collect();
    assert_eq!(names, vec!["a", "b", "c", "d", "e", "f"]);
    let payloads: Vec<Vec<u8>> = fields.iter().map(|f| f.payload.clone().unwrap()).collect();
    assert_eq!(payloads, vec![b"1", b"2", b"3", b"4", b"5", b"6"]);
    assert_eq!(flatten_items(&vec![]), Ok(vec![]));
}

#[test]
fn item_is_appended_to_what_is_there() {
    let mut out = vec![field("kept", b"k")];
    handle_multipart_item(&MultipartItem::Nested(vec![leaf("x", &[b"1"]), leaf("y", &[])]), &mut out);
    assert_eq!(out.len(), 3);
    assert_eq!(out[0], field("kept", b"k"));
    assert_eq!(out[1], FormField { disposition: Some("x".to_string()), payload: Some(b"1".to_vec()) });
    assert_eq!(out[2], FormField { disposition: Some("y".to_string()), payload: None });
}

#[test]
fn multipart_body_to_request() {
    let disposition = |name: &str| Some(format!("form-data; name=\"{}\"", name));
    let body = vec![
        MultipartItem::Field { disposition: disposition("firmware_name"), chunks: Some(vec![b"bo".to_vec(), b"ot".to_vec()]) },
        MultipartItem::Nested(vec![
            MultipartItem::Field { disposition: disposition("firmware_type"), chunks: Some(vec![b"1".to_vec()]) },
            MultipartItem::Field { disposition: disposition("firmware_version"), chunks: Some(vec![b"2".to_vec()]) },
        ]),
        MultipartItem::Field {
            disposition: Some("form-data; name=\"firmware_file\"; filename=\"a.hex\"".to_string()),
            chunks: Some(vec![b":03003000".to_vec(), b"02337A1E\r\n:000000".to_vec(), b"01FF\r\n".to_vec()]),
        },
    ];
    let firmware = create_firmware(&flatten_items(&body).unwrap()).unwrap();
    assert_eq!(firmware, NewFirmware::prepare_in_memory(1, 2, "boot".to_string(), vec![0x02, 0x33, 0x7A]));
}

#[test]
fn failed_field_stream_degrades_to_empty() {
    let body = vec![
        leaf("firmware_name", &[b"boot"]),
        MultipartItem::Field { disposition: Some("firmware_type".to_string()), chunks: None },
        leaf("firmware_version", &[b"2"]),
    ];
    assert_eq!(create_firmware(&flatten_items(&body).unwrap()), Err(IngestError::Parse));
}

#[test]
fn hex_digits_and_their_values() {
    assert_eq!(hex_digit(b'0'), Some(0));
    assert_eq!(hex_digit(b'9'), Some(9));
    assert_eq!(hex_digit(b'A'), Some(10));
    assert_eq!(hex_digit(b'F'), Some(15));
    assert_eq!(hex_digit(b'a'), Some(10));
    assert_eq!(hex_digit(b'f'), Some(15));
    for b in [b'/', b':', b'@', b'G', b'`', b'g', b' ', 0x00, 0xff] {
        assert_eq!(hex_digit(b), None);
    }
}

#[test]
fn checksum_of_lines() {
    assert!(verify_checksum(DATA_LINE.as_bytes()));
    assert!(verify_checksum(END_LINE.as_bytes()));
    assert!(verify_checksum(b":0300300002337a1e"));
    assert!(verify_checksum(b":00000006FA"));
    assert!(verify_checksum(b":00"));
    assert!(verify_checksum(b":"));
    assert!(!verify_checksum(b""));
    assert!(!verify_checksum(b":0300300002337A1F"));
    assert!(!verify_checksum(b":0300300002337A1"));
    assert!(!verify_checksum(b"0300300002337A1E"));
    assert!(!verify_checksum(b":03003000023G7A1E"));
    assert!(!verify_checksum(b":01"));
}

#[test]
fn lower_case_digits_are_read() {
    assert_eq!(decode_image(b":0300300002337a1e"), Ok(vec![0x02, 0x33, 0x7A]));
}

#[test]
fn short_lines_with_a_good_sum_are_still_rejected() {
    assert_eq!(read_record(b":"), Err(IngestError::IhexFormat));
    assert_eq!(read_record(b":00"), Err(IngestError::IhexFormat));
    assert_eq!(read_record(b":01000001FE"), Err(IngestError::IhexFormat));
}

#[test]
fn nesting_up_to_the_limit_is_flattened() {
    assert_eq!(MAX_NESTING, 16);
    let body = vec![leaf("a", &[b"1"]), nested(MAX_NESTING), leaf("z", &[b"2"])];
    let fields = flatten_items(&body).unwrap();
    let names: Vec<String> = fields.iter().map(|f| f.disposition.clone().unwrap()).collect();
    assert_eq!(names, vec!["a", "deep", "z"]);
}

#[test]
fn nesting_past_the_limit_is_refused() {
    let body = vec![leaf("a", &[b"1"]), nested(MAX_NESTING + 1), leaf("z", &[b"2"])];
    assert_eq!(flatten_items(&body), Err(IngestError::MultipartFraming));
    let body = vec![nested(200)];
    assert_eq!(flatten_items(&body), Err(IngestError::MultipartFraming));
}

#[test]
fn nesting_is_counted_in_bodies() {
    assert!(item_nests_within(&leaf("a", &[]), 0));
    assert!(!item_nests_within(&MultipartItem::Nested(vec![]), 0));
    assert!(item_nests_within(&MultipartItem::Nested(vec![]), 1));
    assert!(item_nests_within(&nested(3), 3));
    assert!(!item_nests_within(&nested(3), 2));
    assert!(items_nest_within(&vec![], 0));
    assert!(items_nest_within(&vec![nested(1), nested(2), nested(0)], 2));
    assert!(!items_nest_within(&vec![nested(1), nested(3), nested(0)], 2));
}
