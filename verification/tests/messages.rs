use kompact_sim::messages::{
    request_field_action, MergeError, RequestField, RequestFieldAction, SearchRequest,
    SearchResponse,
};
use kompact_sim::pb::WireType;
use protobuf::{CodedInputStream, CodedOutputStream, RepeatedField};

fn encode_request(r: &SearchRequest) -> Vec<u8> {
    let mut v = Vec::new();
    {
        let mut os = CodedOutputStream::vec(&mut v);
        r.write_to_with_cached_sizes(&mut os).unwrap();
        os.flush().unwrap();
    }
    v
}

fn decode_request(bytes: &[u8]) -> Result<SearchRequest, MergeError> {
    let mut r = SearchRequest::new();
    let mut is = CodedInputStream::from_bytes(bytes);
    r.merge_from(&mut is)?;
    Ok(r)
}

fn encode_response(r: &SearchResponse) -> Vec<u8> {
    let mut v = Vec::new();
    {
        let mut os = CodedOutputStream::vec(&mut v);
        r.write_to_with_cached_sizes(&mut os).unwrap();
        os.flush().unwrap();
    }
    v
}

fn decode_response(bytes: &[u8]) -> Result<SearchResponse, MergeError> {
    let mut r = SearchResponse::new();
    let mut is = CodedInputStream::from_bytes(bytes);
    r.merge_from(&mut is)?;
    Ok(r)
}

#[test]
fn new_request_is_default() {
    let r = SearchRequest::new();
    assert_eq!(r.get_query(), "");
    assert_eq!(r.get_page_number(), 0);
    assert_eq!(r.get_result_per_page(), 0);
    assert!(r.is_initialized());
    assert_eq!(r.compute_size(), 0);
    assert!(r.fields_to_write().is_empty());
    let d = SearchRequest::default();
    assert_eq!(d.get_query(), "");
}

#[test]
fn request_setters_and_getters() {
    let mut r = SearchRequest::new();
    r.set_query("rust".to_string());
    r.set_page_number(3);
    r.set_result_per_page(25);
    assert_eq!(r.get_query(), "rust");
    assert_eq!(r.get_page_number(), 3);
    assert_eq!(r.get_result_per_page(), 25);
    r.mut_query().push_str("acean");
    assert_eq!(r.get_query(), "rustacean");
    r.clear_page_number();
    assert_eq!(r.get_page_number(), 0);
    assert_eq!(r.get_result_per_page(), 25);
    r.clear_result_per_page();
    assert_eq!(r.get_result_per_page(), 0);
    r.clear_query();
    assert_eq!(r.get_query(), "");
}

#[test]
fn take_query_leaves_it_empty() {
    let mut r = SearchRequest::new();
    r.set_query("q".to_string());
    assert_eq!(r.take_query(), "q");
    assert_eq!(r.get_query(), "");
    assert_eq!(r.take_query(), "");
}

#[test]
fn request_size_counts_each_set_field() {
    let mut r = SearchRequest::new();
    r.set_query("hi".to_string());
    assert_eq!(r.compute_size(), 4);
    assert_eq!(r.get_cached_size(), 4);
    r.set_page_number(150);
    assert_eq!(r.compute_size(), 7);
    r.set_result_per_page(1);
    assert_eq!(r.compute_size(), 9);
    assert_eq!(r.get_cached_size(), 9);
    assert_eq!(r.fields_to_write(), vec![RequestField::Query, RequestField::PageNumber, RequestField::ResultPerPage]);
}

#[test]
fn negative_integers_take_ten_bytes() {
    let mut r = SearchRequest::new();
    r.set_page_number(-1);
    assert_eq!(r.compute_size(), 11);
    assert_eq!(encode_request(&r).len(), 11);
}

#[test]
fn multibyte_query_is_sized_in_bytes() {
    let mut r = SearchRequest::new();
    r.set_query("é".to_string());
    assert_eq!(r.compute_size(), 4);
}

#[test]
fn request_encoding_matches_the_wire_format() {
    let mut r = SearchRequest::new();
    r.set_query("hi".to_string());
    r.set_page_number(150);
    let bytes = encode_request(&r);
    assert_eq!(bytes, vec![0x0a, 0x02, b'h', b'i', 0x10, 0x96, 0x01]);
    assert_eq!(bytes.len() as u32, r.compute_size());
}

#[test]
fn request_round_trips() {
    let mut r = SearchRequest::new();
    r.set_query("verified".to_string());
    r.set_page_number(-7);
    r.set_result_per_page(300);
    let back = decode_request(&encode_request(&r)).unwrap();
    assert_eq!(back.get_query(), "verified");
    assert_eq!(back.get_page_number(), -7);
    assert_eq!(back.get_result_per_page(), 300);
}

#[test]
fn unknown_fields_are_kept_and_sized() {
    // field 9, varint 300, then field 2 = 5
    let bytes = [0x48, 0xac, 0x02, 0x10, 0x05];
    let mut r = decode_request(&bytes).unwrap();
    assert_eq!(r.get_page_number(), 5);
    assert_eq!(r.compute_size(), 5);
    assert_eq!(encode_request(&r), vec![0x10, 0x05, 0x48, 0xac, 0x02]);
    r.clear();
    assert_eq!(r.compute_size(), 0);
    assert_eq!(r.get_page_number(), 0);
}

#[test]
fn mut_unknown_fields_reaches_the_fields() {
    let mut r = SearchRequest::new();
    r.mut_unknown_fields().add_varint(9, 300);
    assert_eq!(r.compute_size(), 3);
    assert!(r.get_unknown_fields().get(9).is_some());
}

#[test]
fn integer_field_with_wrong_wire_type_is_rejected() {
    let bytes = [0x12, 0x00];
    match decode_request(&bytes) {
        Err(MergeError::UnexpectedWireType(w)) => assert_eq!(w, WireType::WireTypeLengthDelimited),
        _ => panic!("expected an unexpected wire type"),
    }
}

#[test]
fn query_with_wrong_wire_type_is_rejected() {
    let bytes = [0x08, 0x01];
    match decode_request(&bytes) {
        Err(MergeError::UnexpectedWireType(w)) => assert_eq!(w, WireType::WireTypeVarint),
        _ => panic!("expected an unexpected wire type"),
    }
}

#[test]
fn merge_field_with_wrong_wire_type_reads_nothing() {
    let bytes = [0x01u8];
    let mut is = CodedInputStream::from_bytes(&bytes);
    let mut r = SearchRequest::new();
    assert!(matches!(r.merge_field(&mut is, 1, WireType::WireTypeVarint), Err(MergeError::UnexpectedWireType(WireType::WireTypeVarint))));
    assert_eq!(is.pos(), 0);
    let mut resp = SearchResponse::new();
    assert!(matches!(resp.merge_field(&mut is, 1, WireType::WireTypeVarint), Err(MergeError::UnexpectedWireType(WireType::WireTypeVarint))));
    assert_eq!(is.pos(), 0);
    assert!(resp.get_results().is_empty());
}

#[test]
fn field_actions() {
    assert_eq!(request_field_action(1, WireType::WireTypeLengthDelimited), RequestFieldAction::ReadQuery);
    assert_eq!(request_field_action(1, WireType::WireTypeVarint), RequestFieldAction::WrongWireType);
    assert_eq!(request_field_action(2, WireType::WireTypeVarint), RequestFieldAction::ReadPageNumber);
    assert_eq!(request_field_action(3, WireType::WireTypeVarint), RequestFieldAction::ReadResultPerPage);
    assert_eq!(request_field_action(3, WireType::WireTypeFixed32), RequestFieldAction::WrongWireType);
    assert_eq!(request_field_action(4, WireType::WireTypeVarint), RequestFieldAction::Unknown);
}

#[test]
fn new_response_is_empty() {
    let r = SearchResponse::new();
    assert!(r.get_results().is_empty());
    assert!(r.is_initialized());
    assert_eq!(r.compute_size(), 0);
    assert!(SearchResponse::default().get_results().is_empty());
}

#[test]
fn response_results() {
    let mut r = SearchResponse::new();
    r.set_results(RepeatedField::from_vec(vec!["a".to_string(), "bc".to_string()]));
    assert_eq!(r.get_results(), &["a".to_string(), "bc".to_string()]);
    assert_eq!(r.compute_size(), 7);
    assert_eq!(r.get_cached_size(), 7);
    r.mut_results().push("d".to_string());
    assert_eq!(r.get_results().len(), 3);
    let taken = r.take_results();
    assert_eq!(taken.len(), 3);
    assert!(r.get_results().is_empty());
    r.set_results(taken);
    r.clear_results();
    assert!(r.get_results().is_empty());
}

#[test]
fn response_round_trips() {
    let mut r = SearchResponse::new();
    r.set_results(RepeatedField::from_vec(vec!["x".to_string(), String::new(), "yz".to_string()]));
    let bytes = encode_response(&r);
    assert_eq!(bytes, vec![0x0a, 0x01, b'x', 0x0a, 0x00, 0x0a, 0x02, b'y', b'z']);
    let back = decode_response(&bytes).unwrap();
    assert_eq!(back.get_results(), &["x".to_string(), String::new(), "yz".to_string()]);
    let mut back = back;
    back.clear();
    assert!(back.get_results().is_empty());
    assert_eq!(back.compute_size(), 0);
}

#[test]
fn response_results_with_wrong_wire_type_fail() {
    match decode_response(&[0x08, 0x01]) {
        Err(MergeError::UnexpectedWireType(w)) => assert_eq!(w, WireType::WireTypeVarint),
        _ => panic!("expected an unexpected wire type"),
    }
    let r = decode_response(&[0x10, 0x01]).unwrap();
    assert!(r.get_results().is_empty());
    assert_eq!(r.get_unknown_fields().get(2).map(|v| v.varint.len()), Some(1));
}

#[test]
fn checked_size_agrees_with_size() {
    let mut r = SearchRequest::new();
    assert_eq!(r.checked_compute_size(), Some(0));
    r.set_query("hi".to_string());
    r.set_page_number(-1);
    assert_eq!(r.checked_compute_size(), Some(15));
    assert_eq!(r.get_cached_size(), 15);
    let mut resp = SearchResponse::new();
    assert_eq!(resp.checked_compute_size(), Some(0));
    resp.set_results(RepeatedField::from_vec(vec!["a".to_string(), "bc".to_string()]));
    assert_eq!(resp.checked_compute_size(), Some(7));
}

#[test]
fn request_decodes_each_field() {
    let r = decode_request(&[0x0a, 0x02, 0x61, 0x62, 0x10, 0x05, 0x18, 0x07]).unwrap();
    assert_eq!(r.get_query(), "ab");
    assert_eq!(r.get_page_number(), 5);
    assert_eq!(r.get_result_per_page(), 7);
    assert_eq!(r.get_unknown_fields().iter().count(), 0);
}

#[test]
fn last_occurrence_of_a_field_wins() {
    let mut r = SearchRequest::new();
    r.set_query("x".to_string());
    r.set_page_number(3);
    r.set_result_per_page(9);
    let bytes = [0x10u8, 0x01, 0x10, 0x02];
    let mut is = CodedInputStream::from_bytes(&bytes);
    r.merge_from(&mut is).unwrap();
    assert_eq!(r.get_page_number(), 2);
    assert_eq!(r.get_query(), "x");
    assert_eq!(r.get_result_per_page(), 9);
}

#[test]
fn fields_read_before_a_bad_tag_stay_merged() {
    let mut r = SearchRequest::new();
    let bytes = [0x10u8, 0x05, 0x1a, 0x00];
    let mut is = CodedInputStream::from_bytes(&bytes);
    match r.merge_from(&mut is) {
        Err(MergeError::UnexpectedWireType(w)) => assert_eq!(w, WireType::WireTypeLengthDelimited),
        _ => panic!("expected an unexpected wire type"),
    }
    assert_eq!(r.get_page_number(), 5);
    assert_eq!(r.get_result_per_page(), 0);
    assert_eq!(r.get_query(), "");
}

#[test]
fn store_int_sets_only_the_named_field() {
    let mut r = SearchRequest::new();
    r.store_int(RequestFieldAction::ReadPageNumber, 4);
    r.store_int(RequestFieldAction::ReadResultPerPage, -1);
    r.store_int(RequestFieldAction::ReadQuery, 8);
    assert_eq!(r.get_page_number(), 4);
    assert_eq!(r.get_result_per_page(), -1);
    assert_eq!(r.get_query(), "");
}

#[test]
fn empty_request_writes_nothing() {
    let r = SearchRequest::new();
    assert_eq!(encode_request(&r), Vec::<u8>::new());
}

#[test]
fn response_writes_each_result_in_order() {
    let mut r = SearchResponse::new();
    r.set_results(RepeatedField::from_vec(vec!["a".to_string(), String::new()]));
    assert_eq!(encode_response(&r), vec![0x0a, 0x01, 0x61, 0x0a, 0x00]);
}

#[test]
fn merge_from_reports_a_truncated_stream() {
    let mut r = SearchRequest::new();
    let bytes = [0x10u8];
    let mut is = CodedInputStream::from_bytes(&bytes);
    assert!(matches!(r.merge_from(&mut is), Err(MergeError::Protobuf(_))));
    assert_eq!(r.get_page_number(), 0);
}

#[test]
fn merge_from_keeps_earlier_results() {
    let mut r = SearchResponse::new();
    r.set_results(RepeatedField::from_vec(vec!["a".to_string()]));
    let bytes = [0x0au8, 0x01, b'b'];
    let mut is = CodedInputStream::from_bytes(&bytes);
    r.merge_from(&mut is).unwrap();
    assert_eq!(r.get_results(), &["a".to_string(), "b".to_string()]);
    assert!(is.eof().unwrap());
}
