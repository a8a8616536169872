//! The messages of `example.proto`: a search request and its response.
use vstd::prelude::*;
use vstd::utf8::encode_utf8;

use crate::pb::{
    cached_size_get, cached_size_set, clear_repeated_strings, clear_string, clear_unknown_fields,
    int32_field_size, int32_value_size, new_cached_size, new_repeated_strings,
    new_unknown_fields, read_int32, read_repeated_string_into, read_singular_proto3_string_into,
    read_unknown_or_skip_group, repeated_strings, repeated_strings_slice, string_field_len,
    string_field_size, string_size, unknown_fields_size, unknown_fields_size_of, write_int32, write_string,
    write_unknown_fields, WireType, has_room, lemma_int32_field_bytes_len, lemma_string_field_bytes_len, int32_field_bytes, target_less, stream_output,
    stream_target, string_field_bytes, cannot_fail, unknown_field_numbers,
    unknown_fields_writable, FIELD_NUMBER_MAX, input_bytes, int32_payload, string_payload, varint_bytes, input_pos,
    read_tag, stream_eof, tag_bytes, tag_size,
};
use protobuf::{CachedSize, CodedInputStream, CodedOutputStream, ProtobufError, RepeatedField, UnknownFields};

verus! {

/// Why merging a field from an input stream failed.
#[derive(Debug)]
pub enum MergeError {
    /// A field known to the message came with a wire type it cannot have.
    UnexpectedWireType(WireType),
    /// The stream reported an error.
    Protobuf(ProtobufError),
}

/// `message SearchRequest { string query = 1; int32 page_number = 2; int32 result_per_page = 3; }`
pub struct SearchRequest {
    pub query: String,
    pub page_number: i32,
    pub result_per_page: i32,
    pub unknown_fields: UnknownFields,
    pub cached_size: CachedSize,
}

/// A field of `SearchRequest`.
#[derive(Clone, Copy, Debug, PartialEq, Eq, Structural)]
pub enum RequestField {
    Query,
    PageNumber,
    ResultPerPage,
}

/// What merging a field with the given number and wire type does to a `SearchRequest`.
#[derive(Clone, Copy, Debug, PartialEq, Eq, Structural)]
pub enum RequestFieldAction {
    ReadQuery,
    ReadPageNumber,
    ReadResultPerPage,
    WrongWireType,
    Unknown,
}

/// Field 1 is the query, length-delimited; fields 2 and 3 are varint
/// integers (any other wire type is an error); every other field is unknown.
pub open spec fn spec_request_field_action(field_number: u32, wt: WireType) -> RequestFieldAction {
    if field_number == 1 {
        if wt != WireType::WireTypeLengthDelimited {
            RequestFieldAction::WrongWireType
        } else {
            RequestFieldAction::ReadQuery
        }
    } else if field_number == 2 || field_number == 3 {
        if wt != WireType::WireTypeVarint {
            RequestFieldAction::WrongWireType
        } else if field_number == 2 {
            RequestFieldAction::ReadPageNumber
        } else {
            RequestFieldAction::ReadResultPerPage
        }
    } else {
        RequestFieldAction::Unknown
    }
}

/// The fields a request serializes, in field order: those that differ from
/// their default (a non-empty query, non-zero integers).
pub open spec fn spec_request_fields(query: Seq<char>, page_number: i32, result_per_page: i32) -> Seq<RequestField> {
    (if query.len() > 0 { seq![RequestField::Query] } else { Seq::empty() })
        + (if page_number != 0 { seq![RequestField::PageNumber] } else { Seq::empty() })
        + (if result_per_page != 0 { seq![RequestField::ResultPerPage] } else { Seq::empty() })
}

/// The bytes of one field of a request.
pub open spec fn request_field_bytes(r: SearchRequest, f: RequestField) -> Seq<u8> {
    match f {
        RequestField::Query => string_field_bytes(1, r.query@),
        RequestField::PageNumber => int32_field_bytes(2, r.page_number),
        RequestField::ResultPerPage => int32_field_bytes(3, r.result_per_page),
    }
}

/// The bytes of some fields of a request, in order.
pub open spec fn request_fields_bytes(r: SearchRequest, fs: Seq<RequestField>) -> Seq<u8>
    decreases fs.len(),
{
    if fs.len() == 0 {
        Seq::empty()
    } else {
        request_fields_bytes(r, fs.drop_last()) + request_field_bytes(r, fs.last())
    }
}

/// The bytes a request's own fields serialize to: those that
/// `spec_request_fields` lists, in order.
pub open spec fn request_bytes(r: SearchRequest) -> Seq<u8> {
    request_fields_bytes(r, spec_request_fields(r.query@, r.page_number, r.result_per_page))
}

proof fn lemma_request_fields_bytes_prefix(r: SearchRequest, fs: Seq<RequestField>, i: int)
    requires
        0 <= i <= fs.len(),
    ensures
        request_fields_bytes(r, fs.take(i)).len() <= request_fields_bytes(r, fs).len(),
    decreases fs.len() - i,
{
    if i < fs.len() {
        lemma_request_fields_bytes_prefix(r, fs, i + 1);
        assert(fs.take(i + 1).drop_last() =~= fs.take(i));
    } else {
        assert(fs.take(i) =~= fs);
    }
}

/// Decides what merging field `field_number` with wire type `wt` does.
pub fn request_field_action(field_number: u32, wt: WireType) -> (r: RequestFieldAction)
    ensures
        r == spec_request_field_action(field_number, wt),
{
    if field_number == 1 {
        if wt != WireType::WireTypeLengthDelimited {
            RequestFieldAction::WrongWireType
        } else {
            RequestFieldAction::ReadQuery
        }
    } else if field_number == 2 || field_number == 3 {
        if wt != WireType::WireTypeVarint {
            RequestFieldAction::WrongWireType
        } else if field_number == 2 {
            RequestFieldAction::ReadPageNumber
        } else {
            RequestFieldAction::ReadResultPerPage
        }
    } else {
        RequestFieldAction::Unknown
    }
}

impl SearchRequest {
    /// The encoded size of the request: each serialized field, then the unknown fields.
    pub open spec fn spec_size(&self) -> nat {
        (if self.query@.len() > 0 { string_field_size(1, self.query@) } else { 0 })
            + (if self.page_number != 0 { int32_field_size(2, self.page_number, WireType::WireTypeVarint) } else { 0 })
            + (if self.result_per_page != 0 { int32_field_size(3, self.result_per_page, WireType::WireTypeVarint) } else { 0 })
            + unknown_fields_size_of(self.unknown_fields)
    }

    /// A request with every field at its default: empty query, zero integers,
    /// no unknown fields.
    pub fn new() -> (r: SearchRequest)
        ensures
            r.query@ == Seq::<char>::empty(),
            r.page_number == 0,
            r.result_per_page == 0,
            unknown_fields_size_of(r.unknown_fields) == 0,
            unknown_field_numbers(r.unknown_fields) == Set::<u32>::empty(),
    {
        SearchRequest {
            query: String::new(),
            page_number: 0,
            result_per_page: 0,
            unknown_fields: new_unknown_fields(),
            cached_size: new_cached_size(),
        }
    }

    pub fn get_query(&self) -> (r: &str)
        ensures
            r@ == self.query@,
    {
        self.query.as_str()
    }

    pub fn clear_query(&mut self)
        ensures
            final(self).query@ == Seq::<char>::empty(),
            final(self).page_number == old(self).page_number,
            final(self).result_per_page == old(self).result_per_page,
            final(self).unknown_fields == old(self).unknown_fields,
            final(self).cached_size == old(self).cached_size,
    {
        clear_string(&mut self.query);
    }

    pub fn set_query(&mut self, v: String)
        ensures
            final(self).query == v,
            final(self).page_number == old(self).page_number,
            final(self).result_per_page == old(self).result_per_page,
            final(self).unknown_fields == old(self).unknown_fields,
            final(self).cached_size == old(self).cached_size,
    {
        self.query = v;
    }

    /// The query, to change in place.
    pub fn mut_query(&mut self) -> (r: &mut String)
        ensures
            *r == old(self).query,
            final(self).query == *final(r),
            final(self).page_number == old(self).page_number,
            final(self).result_per_page == old(self).result_per_page,
            final(self).unknown_fields == old(self).unknown_fields,
            final(self).cached_size == old(self).cached_size,
    {
        &mut self.query
    }

    /// Takes the query out, leaving it empty.
    pub fn take_query(&mut self) -> (r: String)
        ensures
            r == old(self).query,
            final(self).query@ == Seq::<char>::empty(),
            final(self).page_number == old(self).page_number,
            final(self).result_per_page == old(self).result_per_page,
            final(self).unknown_fields == old(self).unknown_fields,
            final(self).cached_size == old(self).cached_size,
    {
        let mut taken = String::new();
        std::mem::swap(&mut self.query, &mut taken);
        taken
    }

    pub fn get_page_number(&self) -> (r: i32)
        ensures
            r == self.page_number,
    {
        self.page_number
    }

    pub fn clear_page_number(&mut self)
        ensures
            final(self).page_number == 0,
            final(self).query == old(self).query,
            final(self).result_per_page == old(self).result_per_page,
            final(self).unknown_fields == old(self).unknown_fields,
            final(self).cached_size == old(self).cached_size,
    {
        self.page_number = 0;
    }

    pub fn set_page_number(&mut self, v: i32)
        ensures
            final(self).page_number == v,
            final(self).query == old(self).query,
            final(self).result_per_page == old(self).result_per_page,
            final(self).unknown_fields == old(self).unknown_fields,
            final(self).cached_size == old(self).cached_size,
    {
        self.page_number = v;
    }

    pub fn get_result_per_page(&self) -> (r: i32)
        ensures
            r == self.result_per_page,
    {
        self.result_per_page
    }

    pub fn clear_result_per_page(&mut self)
        ensures
            final(self).result_per_page == 0,
            final(self).query == old(self).query,
            final(self).page_number == old(self).page_number,
            final(self).unknown_fields == old(self).unknown_fields,
            final(self).cached_size == old(self).cached_size,
    {
        self.result_per_page = 0;
    }

    pub fn set_result_per_page(&mut self, v: i32)
        ensures
            final(self).result_per_page == v,
            final(self).query == old(self).query,
            final(self).page_number == old(self).page_number,
            final(self).unknown_fields == old(self).unknown_fields,
            final(self).cached_size == old(self).cached_size,
    {
        self.result_per_page = v;
    }

    /// A proto3 message has no required fields: it is always initialized.
    pub fn is_initialized(&self) -> (r: bool)
        ensures
            r,
    {
        true
    }

    /// Resets every field to its default and drops the unknown fields.
    pub fn clear(&mut self)
        ensures
            final(self).query@ == Seq::<char>::empty(),
            final(self).page_number == 0,
            final(self).result_per_page == 0,
            unknown_fields_size_of(final(self).unknown_fields) == 0,
            unknown_field_numbers(final(self).unknown_fields) == Set::<u32>::empty(),
            final(self).cached_size == old(self).cached_size,
    {
        clear_string(&mut self.query);
        self.page_number = 0;
        self.result_per_page = 0;
        clear_unknown_fields(&mut self.unknown_fields);
    }

    /// Computes the encoded size and caches it.
    pub fn compute_size(&self) -> (r: u32)
        requires
            self.spec_size() <= u32::MAX,
            unknown_fields_writable(self.unknown_fields),
        ensures
            r == self.spec_size(),
    {
        let mut my_size: u32 = 0;
        if !self.query.as_str().is_empty() {
            my_size = my_size + string_size(1, self.query.as_str());
        }
        if self.page_number != 0 {
            my_size = my_size + int32_value_size(2, self.page_number, WireType::WireTypeVarint);
        }
        if self.result_per_page != 0 {
            my_size = my_size + int32_value_size(3, self.result_per_page, WireType::WireTypeVarint);
        }
        my_size = my_size + unknown_fields_size(&self.unknown_fields);
        cached_size_set(&self.cached_size, my_size);
        my_size
    }

    /// Computes and caches the encoded size when it fits in a `u32`;
    /// otherwise caches nothing and returns `None`.
    pub fn checked_compute_size(&self) -> (r: Option<u32>)
        requires
            unknown_fields_writable(self.unknown_fields),
        ensures
            self.spec_size() <= u32::MAX ==> r == Some(self.spec_size() as u32),
            self.spec_size() > u32::MAX ==> (r is None),
    {
        let mut total: u64 = 0;
        if !self.query.as_str().is_empty() {
            match string_field_len(self.query.as_str()) {
                Some(q) => {
                    total = q as u64;
                },
                None => {
                    return None;
                },
            }
        }
        if self.page_number != 0 {
            total = total + int32_value_size(2, self.page_number, WireType::WireTypeVarint) as u64;
        }
        if self.result_per_page != 0 {
            total = total + int32_value_size(3, self.result_per_page, WireType::WireTypeVarint) as u64;
        }
        total = total + unknown_fields_size(&self.unknown_fields) as u64;
        if total > 0xffff_ffff {
            None
        } else {
            Some(self.compute_size())
        }
    }

    /// The size cached by the last `compute_size`.
    pub fn get_cached_size(&self) -> u32 {
        cached_size_get(&self.cached_size)
    }

    pub fn get_unknown_fields(&self) -> (r: &UnknownFields)
        ensures
            *r == self.unknown_fields,
    {
        &self.unknown_fields
    }

    pub fn mut_unknown_fields(&mut self) -> (r: &mut UnknownFields)
        ensures
            *r == old(self).unknown_fields,
            final(self).unknown_fields == *final(r),
            final(self).query == old(self).query,
            final(self).page_number == old(self).page_number,
            final(self).result_per_page == old(self).result_per_page,
            final(self).cached_size == old(self).cached_size,
    {
        &mut self.unknown_fields
    }

    /// The fields that serialization writes, in order.
    pub fn fields_to_write(&self) -> (r: Vec<RequestField>)
        ensures
            r@ == spec_request_fields(self.query@, self.page_number, self.result_per_page),
    {
        let mut fields: Vec<RequestField> = Vec::new();
        if !self.query.as_str().is_empty() {
            fields.push(RequestField::Query);
        }
        if self.page_number != 0 {
            fields.push(RequestField::PageNumber);
        }
        if self.result_per_page != 0 {
            fields.push(RequestField::ResultPerPage);
        }
        assert(fields@ =~= spec_request_fields(self.query@, self.page_number, self.result_per_page));
        fields
    }

    /// Writes the fields that `fields_to_write` lists, then the unknown
    /// fields, stopping at the first error of the stream. On success the
    /// stream holds what it held, then the bytes of those fields, then the
    /// unknown fields.
    pub fn write_to_with_cached_sizes(&self, os: &mut CodedOutputStream) -> (r: Result<(), ProtobufError>)
        requires
            unknown_fields_writable(self.unknown_fields),
            has_room(*old(os), request_bytes(*self).len() + unknown_fields_size_of(self.unknown_fields)),
        ensures
            cannot_fail(*old(os)) ==> r is Ok,
            r is Ok ==> (stream_output(*old(os)) + request_bytes(*self)).is_prefix_of(stream_output(*final(os))),
            r is Ok ==> stream_output(*final(os)).len() == stream_output(*old(os)).len() + request_bytes(*self).len() + unknown_fields_size_of(self.unknown_fields),
    {
        let fields = self.fields_to_write();
        let ghost all = fields@;
        let ghost total: nat = request_bytes(*self).len() + unknown_fields_size_of(self.unknown_fields);
        proof {
            assert(all.take(0) =~= Seq::<RequestField>::empty());
            assert(stream_output(*os) =~= stream_output(*old(os)) + request_fields_bytes(*self, all.take(0)));
        }
        let mut i: usize = 0;
        while i < fields.len()
            invariant
                i <= fields@.len(),
                fields@ == all,
                all == spec_request_fields(self.query@, self.page_number, self.result_per_page),
                total == request_bytes(*self).len() + unknown_fields_size_of(self.unknown_fields),
                has_room(*old(os), total),
                unknown_fields_writable(self.unknown_fields),
                stream_output(*os) == stream_output(*old(os)) + request_fields_bytes(*self, all.take(i as int)),
                stream_target(*os) == target_less(stream_target(*old(os)), request_fields_bytes(*self, all.take(i as int)).len()),
            decreases fields@.len() - i,
        {
            proof {
                assert(all.take(i + 1).drop_last() =~= all.take(i as int));
                assert(all.take(i + 1).last() == all[i as int]);
                lemma_request_fields_bytes_prefix(*self, all, i + 1);
            }
            let written = match fields[i] {
                RequestField::Query => write_string(os, 1, self.query.as_str()),
                RequestField::PageNumber => write_int32(os, 2, self.page_number),
                RequestField::ResultPerPage => write_int32(os, 3, self.result_per_page),
            };
            match written {
                Ok(()) => {},
                Err(e) => {
                    return Err(e);
                },
            }
            proof {
                assert(stream_output(*os) =~= stream_output(*old(os)) + request_fields_bytes(*self, all.take(i + 1)));
            }
            i = i + 1;
        }
        proof {
            assert(all.take(fields@.len() as int) =~= all);
        }
        let ghost before = stream_output(*os);
        let written = write_unknown_fields(os, &self.unknown_fields);
        proof {
            if written is Ok {
                assert(before.is_prefix_of(stream_output(*os)));
            }
        }
        written
    }


    /// Stores an integer read for `action`: into `page_number` for
    /// `ReadPageNumber`, into `result_per_page` for `ReadResultPerPage`; any
    /// other action stores nothing.
    pub fn store_int(&mut self, action: RequestFieldAction, v: i32)
        ensures
            final(self).page_number == (if action == RequestFieldAction::ReadPageNumber { v } else { old(self).page_number }),
            final(self).result_per_page == (if action == RequestFieldAction::ReadResultPerPage { v } else { old(self).result_per_page }),
            final(self).query == old(self).query,
            final(self).unknown_fields == old(self).unknown_fields,
            final(self).cached_size == old(self).cached_size,
    {
        match action {
            RequestFieldAction::ReadPageNumber => {
                self.page_number = v;
            },
            RequestFieldAction::ReadResultPerPage => {
                self.result_per_page = v;
            },
            _ => {},
        }
    }

    /// Merges one field read from `is`, whose tag gave `field_number` and
    /// `wt`: the query, one of the integers, or an unknown field. A known
    /// field under a wire type it cannot have is refused before anything is read.
    pub fn merge_field(&mut self, is: &mut CodedInputStream, field_number: u32, wt: WireType) -> (r: Result<(), MergeError>)
        requires
            0 < field_number <= FIELD_NUMBER_MAX,
        ensures
            final(self).cached_size == old(self).cached_size,
            input_pos(*final(is)) >= input_pos(*old(is)),
            (input_bytes(*final(is)) is Some) == (input_bytes(*old(is)) is Some),
            (r matches Err(MergeError::UnexpectedWireType(_))) ==> spec_request_field_action(field_number, wt) == RequestFieldAction::WrongWireType,
            match spec_request_field_action(field_number, wt) {
                RequestFieldAction::ReadQuery => {
                    &&& final(self).page_number == old(self).page_number
                    &&& final(self).result_per_page == old(self).result_per_page
                    &&& final(self).unknown_fields == old(self).unknown_fields
                },
                RequestFieldAction::ReadPageNumber => {
                    &&& final(self).query == old(self).query
                    &&& final(self).result_per_page == old(self).result_per_page
                    &&& final(self).unknown_fields == old(self).unknown_fields
                    &&& (r is Err) ==> final(self).page_number == old(self).page_number
                },
                RequestFieldAction::ReadResultPerPage => {
                    &&& final(self).query == old(self).query
                    &&& final(self).page_number == old(self).page_number
                    &&& final(self).unknown_fields == old(self).unknown_fields
                    &&& (r is Err) ==> final(self).result_per_page == old(self).result_per_page
                },
                RequestFieldAction::WrongWireType => {
                    &&& r matches Err(MergeError::UnexpectedWireType(w)) && w == wt
                    &&& *final(is) == *old(is)
                    &&& final(self).query == old(self).query
                    &&& final(self).page_number == old(self).page_number
                    &&& final(self).result_per_page == old(self).result_per_page
                    &&& final(self).unknown_fields == old(self).unknown_fields
                },
                RequestFieldAction::Unknown => {
                    &&& final(self).query == old(self).query
                    &&& final(self).page_number == old(self).page_number
                    &&& final(self).result_per_page == old(self).result_per_page
                    &&& wt == WireType::WireTypeStartGroup ==> final(self).unknown_fields == old(self).unknown_fields
                    &&& (r is Err) ==> final(self).unknown_fields == old(self).unknown_fields
                    &&& (r is Ok) && wt != WireType::WireTypeStartGroup ==> unknown_field_numbers(final(self).unknown_fields) == unknown_field_numbers(old(self).unknown_fields).insert(field_number)
                    &&& (r is Ok) && wt != WireType::WireTypeStartGroup ==> unknown_fields_size_of(old(self).unknown_fields) + tag_size(field_number as nat) <= unknown_fields_size_of(final(self).unknown_fields)
                        <= unknown_fields_size_of(old(self).unknown_fields) + tag_size(field_number as nat) + (input_pos(*final(is)) - input_pos(*old(is)))
                },
            },
            input_bytes(*old(is)) matches Some(b) ==> (match spec_request_field_action(field_number, wt) {
                RequestFieldAction::ReadQuery => forall|s: Seq<char>|
                    encode_utf8(s).len() < 0x1_0000_0000 && #[trigger] string_payload(s).is_prefix_of(b)
                    ==> (r is Ok) && final(self).query@ == s && input_bytes(*final(is)) == Some(b.skip(string_payload(s).len() as int)),
                RequestFieldAction::ReadPageNumber => forall|v: i32| #[trigger] int32_payload(v).is_prefix_of(b)
                    ==> (r is Ok) && final(self).page_number == v && input_bytes(*final(is)) == Some(b.skip(int32_payload(v).len() as int)),
                RequestFieldAction::ReadResultPerPage => forall|v: i32| #[trigger] int32_payload(v).is_prefix_of(b)
                    ==> (r is Ok) && final(self).result_per_page == v && input_bytes(*final(is)) == Some(b.skip(int32_payload(v).len() as int)),
                RequestFieldAction::Unknown => {
                    &&& wt == WireType::WireTypeVarint ==> forall|v: nat| v < 0x1_0000_0000_0000_0000 && #[trigger] varint_bytes(v).is_prefix_of(b)
                        ==> (r is Ok) && input_bytes(*final(is)) == Some(b.skip(varint_bytes(v).len() as int))
                    &&& wt == WireType::WireTypeLengthDelimited ==> forall|bs: Seq<u8>| bs.len() < 0x1_0000_0000 && #[trigger] (varint_bytes(bs.len()) + bs).is_prefix_of(b)
                        ==> (r is Ok) && input_bytes(*final(is)) == Some(b.skip((varint_bytes(bs.len()).len() + bs.len()) as int))
                },
                _ => true,
            }),
    {
        match request_field_action(field_number, wt) {
            RequestFieldAction::ReadQuery => {
                match read_singular_proto3_string_into(wt, is, &mut self.query) {
                    Ok(()) => Ok(()),
                    Err(e) => Err(MergeError::Protobuf(e)),
                }
            },
            RequestFieldAction::ReadPageNumber => {
                match read_int32(is) {
                    Ok(tmp) => {
                        self.store_int(RequestFieldAction::ReadPageNumber, tmp);
                        Ok(())
                    },
                    Err(e) => Err(MergeError::Protobuf(e)),
                }
            },
            RequestFieldAction::ReadResultPerPage => {
                match read_int32(is) {
                    Ok(tmp) => {
                        self.store_int(RequestFieldAction::ReadResultPerPage, tmp);
                        Ok(())
                    },
                    Err(e) => Err(MergeError::Protobuf(e)),
                }
            },
            RequestFieldAction::WrongWireType => Err(MergeError::UnexpectedWireType(wt)),
            RequestFieldAction::Unknown => {
                match read_unknown_or_skip_group(field_number, wt, is, &mut self.unknown_fields) {
                    Ok(()) => Ok(()),
                    Err(e) => Err(MergeError::Protobuf(e)),
                }
            },
        }
    }

    /// Merges every field the stream holds, up to its end (or its current
    /// limit), in order, stopping at the first error: the end-of-input test
    /// and the tag read fail with the stream's error, a field as
    /// `merge_field` says. On success over bytes in memory, the bytes are used
    /// up. Where the stream's bytes are exactly what a request
    /// `w` writes of its own fields, the merge succeeds, each field `w`
    /// writes takes `w`'s value, the others keep theirs, and the bytes are used up.
    #[verifier::rlimit(60)]
    pub fn merge_from(&mut self, is: &mut CodedInputStream) -> (r: Result<(), MergeError>)
        ensures
            final(self).cached_size == old(self).cached_size,
            input_pos(*final(is)) >= input_pos(*old(is)),
            (r is Ok) && (input_bytes(*old(is)) is Some) ==> input_bytes(*final(is)) == Some(Seq::<u8>::empty()),
            forall|w: SearchRequest| request_encodable(w) && input_bytes(*old(is)) == Some(#[trigger] request_bytes(w))
                ==> (r is Ok) && request_merged(*old(self), w, request_field_list(w), *final(self))
                    && input_bytes(*final(is)) == Some(Seq::<u8>::empty()),
    {
        let ghost start = *self;
        let ghost is_start = *is;
        proof {
            assert forall|w: SearchRequest| request_encodable(w) && input_bytes(is_start) == Some(#[trigger] request_bytes(w))
                implies exists|k: int| #[trigger] request_decoding_at(start, w, k, input_bytes(*is), *self) by {
                assert(request_field_list(w).skip(0) =~= request_field_list(w));
                assert(request_field_list(w).take(0) =~= Seq::<RequestField>::empty());
                assert(request_decoding_at(start, w, 0, input_bytes(*is), *self));
            }
        }
        loop
            invariant
                start == *old(self),
                is_start == *old(is),
                self.cached_size == start.cached_size,
                input_pos(*is) >= input_pos(is_start),
                (input_bytes(*is) is Some) == (input_bytes(is_start) is Some),
                forall|w: SearchRequest| request_encodable(w) && input_bytes(is_start) == Some(#[trigger] request_bytes(w))
                    ==> exists|k: int| #[trigger] request_decoding_at(start, w, k, input_bytes(*is), *self),
            decreases u64::MAX - input_pos(*is),
        {
            let ghost is0 = *is;
            let ghost cur0 = *self;
            let at_end = match stream_eof(is) {
                Ok(e) => e,
                Err(err) => {
                    proof {
                        assert forall|w: SearchRequest| request_encodable(w) && input_bytes(is_start) == Some(#[trigger] request_bytes(w)) implies false by {
                            let k = choose|k: int| #[trigger] request_decoding_at(start, w, k, input_bytes(is0), cur0);
                        }
                    }
                    return Err(MergeError::Protobuf(err));
                },
            };
            if at_end {
                proof {
                    assert forall|w: SearchRequest| request_encodable(w) && input_bytes(is_start) == Some(#[trigger] request_bytes(w)) implies
                        request_merged(start, w, request_field_list(w), *self) && input_bytes(*is) == Some(Seq::<u8>::empty()) by {
                        let k = choose|k: int| #[trigger] request_decoding_at(start, w, k, input_bytes(is0), cur0);
                        let fl = request_field_list(w);
                        if k < fl.len() {
                            lemma_request_fields_bytes_nonempty(w, fl.skip(k));
                        }
                        assert(fl.take(fl.len() as int) =~= fl);
                        assert(fl.skip(fl.len() as int) =~= Seq::<RequestField>::empty());
                        assert(request_fields_bytes(w, Seq::<RequestField>::empty()) =~= Seq::<u8>::empty());
                    }
                }
                return Ok(());
            }
            let ghost is1 = *is;
            let t = read_tag(is);
            let ghost is2 = *is;
            proof {
                assert forall|w: SearchRequest| request_encodable(w) && input_bytes(is_start) == Some(#[trigger] request_bytes(w)) implies
                    exists|k: int| #[trigger] request_tag_read(start, w, k, input_bytes(is0), cur0, t, input_bytes(is2)) by {
                    let k = choose|k: int| #[trigger] request_decoding_at(start, w, k, input_bytes(is0), cur0);
                    let fl = request_field_list(w);
                    if k >= fl.len() {
                        assert(fl.skip(k) =~= Seq::<RequestField>::empty());
                        assert(request_fields_bytes(w, Seq::<RequestField>::empty()) =~= Seq::<u8>::empty());
                    }
                    lemma_request_next_field(w, k);
                    let f = fl[k];
                    let tb = tag_bytes(request_field_tag(f).0 as nat, request_field_tag(f).1);
                    let pb = request_field_payload(w, f);
                    let rest = request_fields_bytes(w, fl.skip(k + 1));
                    let x = request_fields_bytes(w, fl.skip(k));
                    assert(x.subrange(0, tb.len() as int) =~= tb);
                    assert(tb.is_prefix_of(x));
                    assert(x.skip(tb.len() as int) =~= pb + rest);
                    assert(request_tag_read(start, w, k, input_bytes(is0), cur0, t, input_bytes(is2)));
                }
            }
            match t {
                Err(err) => {
                    proof {
                        assert forall|w: SearchRequest| request_encodable(w) && input_bytes(is_start) == Some(#[trigger] request_bytes(w)) implies false by {
                            let k = choose|k: int| #[trigger] request_tag_read(start, w, k, input_bytes(is0), cur0, t, input_bytes(is2));
                        }
                    }
                    return Err(MergeError::Protobuf(err));
                },
                Ok(tag) => {
                    let merged = self.merge_field(is, tag.0, tag.1);
                    proof {
                        assert forall|w: SearchRequest| request_encodable(w) && input_bytes(is_start) == Some(#[trigger] request_bytes(w)) implies
                            (merged is Ok) && exists|k: int| #[trigger] request_decoding_at(start, w, k, input_bytes(*is), *self) by {
                            let k = choose|k: int| #[trigger] request_tag_read(start, w, k, input_bytes(is0), cur0, t, input_bytes(is2));
                            let fl = request_field_list(w);
                            lemma_request_next_field(w, k);
                            let f = fl[k];
                            let pb = request_field_payload(w, f);
                            let rest = request_fields_bytes(w, fl.skip(k + 1));
                            assert((pb + rest).subrange(0, pb.len() as int) =~= pb);
                            assert(pb.is_prefix_of(pb + rest));
                            assert((pb + rest).skip(pb.len() as int) =~= rest);
                            match f {
                                RequestField::Query => {
                                    assert(string_payload(w.query@).is_prefix_of(input_bytes(is2)->0));
                                },
                                RequestField::PageNumber => {
                                    assert(int32_payload(w.page_number).is_prefix_of(input_bytes(is2)->0));
                                },
                                RequestField::ResultPerPage => {
                                    assert(int32_payload(w.result_per_page).is_prefix_of(input_bytes(is2)->0));
                                    assert(self.result_per_page == w.result_per_page);
                                },
                            }
                            assert(input_bytes(*is) == Some(rest));
                            lemma_request_merge_step(start, w, k, cur0, *self);
                            assert(request_decoding_at(start, w, k + 1, input_bytes(*is), *self));
                        }
                    }
                    match merged {
                        Ok(()) => {},
                        Err(err) => {
                            return Err(err);
                        },
                    }
                },
            }
        }
    }
}

impl Default for SearchRequest {
    fn default() -> (r: SearchRequest)
        ensures
            r.query@ == Seq::<char>::empty(),
            r.page_number == 0,
            r.result_per_page == 0,
            unknown_fields_size_of(r.unknown_fields) == 0,
            unknown_field_numbers(r.unknown_fields) == Set::<u32>::empty(),
    {
        SearchRequest::new()
    }
}

/// `message SearchResponse { repeated string results = 1; }`
pub struct SearchResponse {
    pub results: RepeatedField<String>,
    pub unknown_fields: UnknownFields,
    pub cached_size: CachedSize,
}

/// The encoded size of a list of strings, each written as field 1.
pub open spec fn results_size(results: Seq<Seq<char>>) -> nat
    decreases results.len(),
{
    if results.len() == 0 {
        0
    } else {
        results_size(results.drop_last()) + string_field_size(1, results.last())
    }
}

/// The bytes of a list of strings, each written as field 1, in order.
pub open spec fn results_bytes(results: Seq<Seq<char>>) -> Seq<u8>
    decreases results.len(),
{
    if results.len() == 0 {
        Seq::empty()
    } else {
        results_bytes(results.drop_last()) + string_field_bytes(1, results.last())
    }
}

proof fn lemma_results_bytes_prefix(results: Seq<Seq<char>>, i: int)
    requires
        0 <= i <= results.len(),
    ensures
        results_bytes(results.take(i)).len() <= results_bytes(results).len(),
    decreases results.len() - i,
{
    if i < results.len() {
        lemma_results_bytes_prefix(results, i + 1);
        assert(results.take(i + 1).drop_last() =~= results.take(i));
    } else {
        assert(results.take(i) =~= results);
    }
}

proof fn lemma_results_size_prefix(results: Seq<Seq<char>>, i: int)
    requires
        0 <= i <= results.len(),
    ensures
        results_size(results.take(i)) <= results_size(results),
    decreases results.len() - i,
{
    if i < results.len() {
        lemma_results_size_prefix(results, i + 1);
        assert(results.take(i + 1).drop_last() =~= results.take(i));
    } else {
        assert(results.take(i) =~= results);
    }
}

impl SearchResponse {
    /// The encoded size of the response: every result, then the unknown fields.
    pub open spec fn spec_size(&self) -> nat {
        results_size(repeated_strings(self.results)) + unknown_fields_size_of(self.unknown_fields)
    }

    /// A response with no results and no unknown fields.
    pub fn new() -> (r: SearchResponse)
        ensures
            repeated_strings(r.results) == Seq::<Seq<char>>::empty(),
            unknown_fields_size_of(r.unknown_fields) == 0,
            unknown_field_numbers(r.unknown_fields) == Set::<u32>::empty(),
    {
        SearchResponse {
            results: new_repeated_strings(),
            unknown_fields: new_unknown_fields(),
            cached_size: new_cached_size(),
        }
    }

    pub fn get_results(&self) -> (r: &[String])
        ensures
            r@.map_values(|s: String| s@) == repeated_strings(self.results),
            repeated_strings(self.results).len() <= isize::MAX,
    {
        repeated_strings_slice(&self.results)
    }

    pub fn clear_results(&mut self)
        ensures
            repeated_strings(final(self).results) == Seq::<Seq<char>>::empty(),
            final(self).unknown_fields == old(self).unknown_fields,
            final(self).cached_size == old(self).cached_size,
    {
        clear_repeated_strings(&mut self.results);
    }

    pub fn set_results(&mut self, v: RepeatedField<String>)
        ensures
            final(self).results == v,
            final(self).unknown_fields == old(self).unknown_fields,
            final(self).cached_size == old(self).cached_size,
    {
        self.results = v;
    }

    /// The results, to change in place.
    pub fn mut_results(&mut self) -> (r: &mut RepeatedField<String>)
        ensures
            *r == old(self).results,
            final(self).results == *final(r),
            final(self).unknown_fields == old(self).unknown_fields,
            final(self).cached_size == old(self).cached_size,
    {
        &mut self.results
    }

    /// Takes the results out, leaving none.
    pub fn take_results(&mut self) -> (r: RepeatedField<String>)
        ensures
            r == old(self).results,
            repeated_strings(final(self).results) == Seq::<Seq<char>>::empty(),
            final(self).unknown_fields == old(self).unknown_fields,
            final(self).cached_size == old(self).cached_size,
    {
        let mut taken = new_repeated_strings();
        std::mem::swap(&mut self.results, &mut taken);
        taken
    }

    /// A proto3 message has no required fields: it is always initialized.
    pub fn is_initialized(&self) -> (r: bool)
        ensures
            r,
    {
        true
    }

    /// Drops every result and the unknown fields.
    pub fn clear(&mut self)
        ensures
            repeated_strings(final(self).results) == Seq::<Seq<char>>::empty(),
            unknown_fields_size_of(final(self).unknown_fields) == 0,
            unknown_field_numbers(final(self).unknown_fields) == Set::<u32>::empty(),
            final(self).cached_size == old(self).cached_size,
    {
        clear_repeated_strings(&mut self.results);
        clear_unknown_fields(&mut self.unknown_fields);
    }

    /// Computes the encoded size and caches it.
    pub fn compute_size(&self) -> (r: u32)
        requires
            self.spec_size() <= u32::MAX,
            unknown_fields_writable(self.unknown_fields),
        ensures
            r == self.spec_size(),
    {
        let results = repeated_strings_slice(&self.results);
        let ghost strs = results@.map_values(|s: String| s@);
        let mut my_size: u32 = 0;
        let mut i: usize = 0;
        proof {
            assert(strs.take(0) =~= Seq::<Seq<char>>::empty());
        }
        while i < results.len()
            invariant
                i <= results@.len(),
                strs == results@.map_values(|s: String| s@),
                strs == repeated_strings(self.results),
                self.spec_size() <= u32::MAX,
                my_size == results_size(strs.take(i as int)),
            decreases results@.len() - i,
        {
            proof {
                assert(strs.take(i + 1).drop_last() =~= strs.take(i as int));
                assert(strs.take(i + 1).last() == results@[i as int]@);
                lemma_results_size_prefix(strs, i + 1);
            }
            my_size = my_size + string_size(1, results[i].as_str());
            i = i + 1;
        }
        proof {
            assert(strs.take(results@.len() as int) =~= strs);
        }
        my_size = my_size + unknown_fields_size(&self.unknown_fields);
        cached_size_set(&self.cached_size, my_size);
        my_size
    }

    /// The size cached by the last `compute_size`.
    pub fn get_cached_size(&self) -> u32 {
        cached_size_get(&self.cached_size)
    }

    pub fn get_unknown_fields(&self) -> (r: &UnknownFields)
        ensures
            *r == self.unknown_fields,
    {
        &self.unknown_fields
    }

    pub fn mut_unknown_fields(&mut self) -> (r: &mut UnknownFields)
        ensures
            *r == old(self).unknown_fields,
            final(self).unknown_fields == *final(r),
            final(self).results == old(self).results,
            final(self).cached_size == old(self).cached_size,
    {
        &mut self.unknown_fields
    }

    /// Computes and caches the encoded size when it fits in a `u32`;
    /// otherwise caches nothing and returns `None`.
    pub fn checked_compute_size(&self) -> (r: Option<u32>)
        requires
            unknown_fields_writable(self.unknown_fields),
        ensures
            self.spec_size() <= u32::MAX ==> r == Some(self.spec_size() as u32),
            self.spec_size() > u32::MAX ==> (r is None),
    {
        let results = repeated_strings_slice(&self.results);
        let ghost strs = results@.map_values(|s: String| s@);
        let mut total: u64 = 0;
        let mut i: usize = 0;
        proof {
            assert(strs.take(0) =~= Seq::<Seq<char>>::empty());
        }
        while i < results.len()
            invariant
                i <= results@.len(),
                strs == results@.map_values(|s: String| s@),
                strs == repeated_strings(self.results),
                total == results_size(strs.take(i as int)),
                total <= u32::MAX,
            decreases results@.len() - i,
        {
            proof {
                assert(strs.take(i + 1).drop_last() =~= strs.take(i as int));
                assert(strs.take(i + 1).last() == results@[i as int]@);
                lemma_results_size_prefix(strs, i + 1);
            }
            match string_field_len(results[i].as_str()) {
                Some(q) => {
                    total = total + q as u64;
                },
                None => {
                    return None;
                },
            }
            if total > 0xffff_ffff {
                return None;
            }
            i = i + 1;
        }
        proof {
            assert(strs.take(results@.len() as int) =~= strs);
        }
        total = total + unknown_fields_size(&self.unknown_fields) as u64;
        if total > 0xffff_ffff {
            None
        } else {
            Some(self.compute_size())
        }
    }

    /// Writes every result as field 1, in order, then the unknown fields,
    /// stopping at the first error of the stream. On success the stream holds
    /// what it held, then the results' bytes, then the unknown fields.
    pub fn write_to_with_cached_sizes(&self, os: &mut CodedOutputStream) -> (r: Result<(), ProtobufError>)
        requires
            unknown_fields_writable(self.unknown_fields),
            has_room(*old(os), results_bytes(repeated_strings(self.results)).len() + unknown_fields_size_of(self.unknown_fields)),
        ensures
            cannot_fail(*old(os)) ==> r is Ok,
            r is Ok ==> (stream_output(*old(os)) + results_bytes(repeated_strings(self.results))).is_prefix_of(stream_output(*final(os))),
            r is Ok ==> stream_output(*final(os)).len() == stream_output(*old(os)).len() + results_bytes(repeated_strings(self.results)).len() + unknown_fields_size_of(self.unknown_fields),
    {
        let results = repeated_strings_slice(&self.results);
        let ghost strs = results@.map_values(|s: String| s@);
        let ghost total: nat = results_bytes(strs).len() + unknown_fields_size_of(self.unknown_fields);
        proof {
            assert(strs.take(0) =~= Seq::<Seq<char>>::empty());
            assert(stream_output(*os) =~= stream_output(*old(os)) + results_bytes(strs.take(0)));
        }
        let mut i: usize = 0;
        while i < results.len()
            invariant
                i <= results@.len(),
                strs == results@.map_values(|s: String| s@),
                strs == repeated_strings(self.results),
                total == results_bytes(strs).len() + unknown_fields_size_of(self.unknown_fields),
                has_room(*old(os), total),
                unknown_fields_writable(self.unknown_fields),
                stream_output(*os) == stream_output(*old(os)) + results_bytes(strs.take(i as int)),
                stream_target(*os) == target_less(stream_target(*old(os)), results_bytes(strs.take(i as int)).len()),
            decreases results@.len() - i,
        {
            proof {
                assert(strs.take(i + 1).drop_last() =~= strs.take(i as int));
                assert(strs.take(i + 1).last() == results@[i as int]@);
                lemma_results_bytes_prefix(strs, i + 1);
            }
            match write_string(os, 1, results[i].as_str()) {
                Ok(()) => {},
                Err(e) => {
                    return Err(e);
                },
            }
            proof {
                assert(stream_output(*os) =~= stream_output(*old(os)) + results_bytes(strs.take(i + 1)));
            }
            i = i + 1;
        }
        proof {
            assert(strs.take(results@.len() as int) =~= strs);
        }
        let ghost before = stream_output(*os);
        let written = write_unknown_fields(os, &self.unknown_fields);
        proof {
            if written is Ok {
                assert(before.is_prefix_of(stream_output(*os)));
            }
        }
        written
    }


    /// Merges one field read from `is`: field 1, length-delimited, appends a
    /// result (under another wire type it is refused and nothing is read);
    /// any other field is unknown.
    pub fn merge_field(&mut self, is: &mut CodedInputStream, field_number: u32, wt: WireType) -> (r: Result<(), MergeError>)
        requires
            0 < field_number <= FIELD_NUMBER_MAX,
            repeated_strings(old(self).results).len() < usize::MAX,
        ensures
            final(self).cached_size == old(self).cached_size,
            input_pos(*final(is)) >= input_pos(*old(is)),
            (input_bytes(*final(is)) is Some) == (input_bytes(*old(is)) is Some),
            (r matches Err(MergeError::UnexpectedWireType(_))) ==> field_number == 1 && wt != WireType::WireTypeLengthDelimited,
            field_number == 1 && wt != WireType::WireTypeLengthDelimited ==> (r matches Err(MergeError::UnexpectedWireType(w)) && w == wt) && *final(is) == *old(is),
            field_number == 1 && wt == WireType::WireTypeLengthDelimited ==> repeated_strings(final(self).results).len() <= isize::MAX,
            field_number != 1 && wt == WireType::WireTypeStartGroup ==> final(self).unknown_fields == old(self).unknown_fields,
            field_number != 1 && (r is Err) ==> final(self).unknown_fields == old(self).unknown_fields,
            field_number != 1 && (r is Ok) && wt != WireType::WireTypeStartGroup ==> unknown_field_numbers(final(self).unknown_fields) == unknown_field_numbers(old(self).unknown_fields).insert(field_number),
            field_number != 1 && wt == WireType::WireTypeVarint ==> (input_bytes(*old(is)) matches Some(b) ==> forall|v: nat| v < 0x1_0000_0000_0000_0000 && #[trigger] varint_bytes(v).is_prefix_of(b)
                ==> (r is Ok) && input_bytes(*final(is)) == Some(b.skip(varint_bytes(v).len() as int))),
            field_number != 1 && wt == WireType::WireTypeLengthDelimited ==> (input_bytes(*old(is)) matches Some(b) ==> forall|bs: Seq<u8>| bs.len() < 0x1_0000_0000 && #[trigger] (varint_bytes(bs.len()) + bs).is_prefix_of(b)
                ==> (r is Ok) && input_bytes(*final(is)) == Some(b.skip((varint_bytes(bs.len()).len() + bs.len()) as int))),
            field_number != 1 && (r is Ok) && wt != WireType::WireTypeStartGroup ==> unknown_fields_size_of(old(self).unknown_fields) + tag_size(field_number as nat) <= unknown_fields_size_of(final(self).unknown_fields)
                <= unknown_fields_size_of(old(self).unknown_fields) + tag_size(field_number as nat) + (input_pos(*final(is)) - input_pos(*old(is))),
            field_number == 1 ==> final(self).unknown_fields == old(self).unknown_fields,
            field_number == 1 && wt != WireType::WireTypeLengthDelimited ==> final(self).results == old(self).results,
            field_number == 1 && wt == WireType::WireTypeLengthDelimited ==> repeated_strings(final(self).results).len() == repeated_strings(old(self).results).len() + 1
                && repeated_strings(final(self).results).take(repeated_strings(old(self).results).len() as int) == repeated_strings(old(self).results),
            field_number != 1 ==> final(self).results == old(self).results,
            field_number == 1 && wt == WireType::WireTypeLengthDelimited ==> (input_bytes(*old(is)) matches Some(b) ==> forall|s: Seq<char>|
                encode_utf8(s).len() < 0x1_0000_0000 && #[trigger] string_payload(s).is_prefix_of(b)
                ==> (r is Ok) && repeated_strings(final(self).results) == repeated_strings(old(self).results).push(s)
                    && input_bytes(*final(is)) == Some(b.skip(string_payload(s).len() as int))),
    {
        if field_number == 1 {
            if wt != WireType::WireTypeLengthDelimited {
                return Err(MergeError::UnexpectedWireType(wt));
            }
            match read_repeated_string_into(wt, is, &mut self.results) {
                Ok(()) => Ok(()),
                Err(e) => Err(MergeError::Protobuf(e)),
            }
        } else {
            match read_unknown_or_skip_group(field_number, wt, is, &mut self.unknown_fields) {
                Ok(()) => Ok(()),
                Err(e) => Err(MergeError::Protobuf(e)),
            }
        }
    }

    /// Merges every field the stream holds, up to its end (or its current
    /// limit), in order, stopping at the first error: the end-of-input test
    /// and the tag read fail with the stream's error, a field as
    /// `merge_field` says. On success over bytes in memory, the bytes are used
    /// up. Where the stream's bytes are those of a run of fields `fs` (results
    /// and unknown varint fields, in any order), the merge succeeds, the
    /// results among `fs` are appended in order, the unknown ones are kept
    /// under their numbers, and the bytes are used up; in particular for the
    /// bytes of results `ws` alone, `ws` are appended and nothing else changes.
    #[verifier::rlimit(80)]
    pub fn merge_from(&mut self, is: &mut CodedInputStream) -> (r: Result<(), MergeError>)
        ensures
            final(self).cached_size == old(self).cached_size,
            input_pos(*final(is)) >= input_pos(*old(is)),
            (r is Ok) && (input_bytes(*old(is)) is Some) ==> input_bytes(*final(is)) == Some(Seq::<u8>::empty()),
            forall|ws: Seq<Seq<char>>| results_encodable(ws) && input_bytes(*old(is)) == Some(#[trigger] results_bytes(ws))
                ==> (r is Ok) && repeated_strings(final(self).results) == repeated_strings(old(self).results) + ws
                    && final(self).unknown_fields == old(self).unknown_fields
                    && input_bytes(*final(is)) == Some(Seq::<u8>::empty()),
            forall|fs: Seq<ResponseField>| (forall|i: int| 0 <= i < fs.len() ==> response_field_valid(#[trigger] fs[i]))
                && input_bytes(*old(is)) == Some(#[trigger] response_fields_bytes(fs))
                ==> (r is Ok) && repeated_strings(final(self).results) == repeated_strings(old(self).results) + results_in(fs)
                    && unknown_field_numbers(final(self).unknown_fields) == unknown_field_numbers(old(self).unknown_fields) + unknown_numbers_in(fs)
                    && (!has_unknown(fs) ==> final(self).unknown_fields == old(self).unknown_fields)
                    && input_bytes(*final(is)) == Some(Seq::<u8>::empty()),
    {
        let ghost start = *self;
        let ghost is_start = *is;
        let _ = self.get_results();
        proof {
            assert forall|fs: Seq<ResponseField>| #[trigger] response_input(fs, input_bytes(is_start))
                implies exists|k: int| #[trigger] response_decoding_at(start, fs, k, input_bytes(*is), *self) by {
                assert(fs.skip(0) =~= fs);
                assert(fs.take(0) =~= Seq::<ResponseField>::empty());
                assert(repeated_strings(self.results) + results_in(fs.take(0)) =~= repeated_strings(self.results));
                assert(unknown_field_numbers(self.unknown_fields) + unknown_numbers_in(fs.take(0)) =~= unknown_field_numbers(self.unknown_fields));
                assert(response_decoding_at(start, fs, 0, input_bytes(*is), *self));
            }
        }
        loop
            invariant
                start == *old(self),
                is_start == *old(is),
                self.cached_size == start.cached_size,
                input_pos(*is) >= input_pos(is_start),
                (input_bytes(*is) is Some) == (input_bytes(is_start) is Some),
                repeated_strings(self.results).len() <= isize::MAX,
                forall|fs: Seq<ResponseField>| #[trigger] response_input(fs, input_bytes(is_start))
                    ==> exists|k: int| #[trigger] response_decoding_at(start, fs, k, input_bytes(*is), *self),
            decreases u64::MAX - input_pos(*is),
        {
            let ghost is0 = *is;
            let ghost cur0 = *self;
            let at_end = match stream_eof(is) {
                Ok(e) => e,
                Err(err) => {
                    proof {
                        assert forall|fs: Seq<ResponseField>| #[trigger] response_input(fs, input_bytes(is_start)) implies false by {
                            let k = choose|k: int| #[trigger] response_decoding_at(start, fs, k, input_bytes(is0), cur0);
                        }
                        self.lemma_no_input_fits(is_start);
                    }
                    return Err(MergeError::Protobuf(err));
                },
            };
            if at_end {
                proof {
                    assert forall|fs: Seq<ResponseField>| #[trigger] response_input(fs, input_bytes(is_start)) implies
                        repeated_strings(self.results) == repeated_strings(start.results) + results_in(fs)
                            && unknown_field_numbers(self.unknown_fields) == unknown_field_numbers(start.unknown_fields) + unknown_numbers_in(fs)
                            && (!has_unknown(fs) ==> self.unknown_fields == start.unknown_fields)
                            && input_bytes(*is) == Some(Seq::<u8>::empty()) by {
                        let k = choose|k: int| #[trigger] response_decoding_at(start, fs, k, input_bytes(is0), cur0);
                        if k < fs.len() {
                            lemma_response_step(fs, k);
                            assert(response_field_bytes(fs[k]).len() > 0);
                        }
                        assert(fs.take(fs.len() as int) =~= fs);
                        assert(fs.skip(fs.len() as int) =~= Seq::<ResponseField>::empty());
                    }
                    self.lemma_outcome_for_all_inputs(start, is_start, *is);
                }
                return Ok(());
            }
            let t = read_tag(is);
            let ghost is2 = *is;
            proof {
                assert forall|fs: Seq<ResponseField>| #[trigger] response_input(fs, input_bytes(is_start)) implies
                    exists|k: int| #[trigger] response_tag_read(start, fs, k, input_bytes(is0), cur0, t, input_bytes(is2)) by {
                    let k = choose|k: int| #[trigger] response_decoding_at(start, fs, k, input_bytes(is0), cur0);
                    if k >= fs.len() {
                        assert(fs.skip(k) =~= Seq::<ResponseField>::empty());
                    }
                    lemma_response_step(fs, k);
                    let x = response_fields_bytes(fs.skip(k));
                    let rest = response_fields_bytes(fs.skip(k + 1));
                    assert(response_field_valid(fs[k]));
                    match fs[k] {
                        ResponseField::Result(s) => {
                            let tb = tag_bytes(1, WireType::WireTypeLengthDelimited);
                            assert(x =~= tb + (string_payload(s) + rest));
                            assert(x.subrange(0, tb.len() as int) =~= tb);
                            assert(tag_bytes(1u32 as nat, WireType::WireTypeLengthDelimited).is_prefix_of(input_bytes(is0)->0));
                            assert(x.skip(tb.len() as int) =~= string_payload(s) + rest);
                        },
                        ResponseField::UnknownVarint(n, v) => {
                            let tb = tag_bytes(n as nat, WireType::WireTypeVarint);
                            assert(x =~= tb + (varint_bytes(v) + rest));
                            assert(x.subrange(0, tb.len() as int) =~= tb);
                            assert(tag_bytes(n as nat, WireType::WireTypeVarint).is_prefix_of(input_bytes(is0)->0));
                            assert(x.skip(tb.len() as int) =~= varint_bytes(v) + rest);
                        },
                    }
                    assert(response_tag_read(start, fs, k, input_bytes(is0), cur0, t, input_bytes(is2)));
                }
            }
            match t {
                Err(err) => {
                    proof {
                        assert forall|fs: Seq<ResponseField>| #[trigger] response_input(fs, input_bytes(is_start)) implies false by {
                            let k = choose|k: int| #[trigger] response_tag_read(start, fs, k, input_bytes(is0), cur0, t, input_bytes(is2));
                        }
                        self.lemma_no_input_fits(is_start);
                    }
                    return Err(MergeError::Protobuf(err));
                },
                Ok(tag) => {
                    let merged = self.merge_field(is, tag.0, tag.1);
                    proof {
                        assert forall|fs: Seq<ResponseField>| #[trigger] response_input(fs, input_bytes(is_start)) implies
                            (merged is Ok) && exists|k: int| #[trigger] response_decoding_at(start, fs, k, input_bytes(*is), *self) by {
                            let k = choose|k: int| #[trigger] response_tag_read(start, fs, k, input_bytes(is0), cur0, t, input_bytes(is2));
                            lemma_response_step(fs, k);
                            let rest = response_fields_bytes(fs.skip(k + 1));
                            match fs[k] {
                                ResponseField::Result(s) => {
                                    let pb = string_payload(s);
                                    assert((pb + rest).subrange(0, pb.len() as int) =~= pb);
                                    assert(response_field_valid(fs[k]));
                                    assert(string_payload(s).is_prefix_of(input_bytes(is2)->0));
                                    assert((pb + rest).skip(pb.len() as int) =~= rest);
                                    assert(input_bytes(*is) == Some(rest));
                                    assert(repeated_strings(self.results) =~= repeated_strings(start.results) + results_in(fs.take(k + 1)));
                                },
                                ResponseField::UnknownVarint(n, v) => {
                                    let pb = varint_bytes(v);
                                    assert((pb + rest).subrange(0, pb.len() as int) =~= pb);
                                    assert(response_field_valid(fs[k]));
                                    assert(varint_bytes(v).is_prefix_of(input_bytes(is2)->0));
                                    assert((pb + rest).skip(pb.len() as int) =~= rest);
                                    assert(input_bytes(*is) == Some(rest));
                                    assert(repeated_strings(self.results) =~= repeated_strings(start.results) + results_in(fs.take(k + 1)));
                                    assert(unknown_field_numbers(self.unknown_fields) =~= unknown_field_numbers(start.unknown_fields) + unknown_numbers_in(fs.take(k + 1)));
                                },
                            }
                            assert(response_decoding_at(start, fs, k + 1, input_bytes(*is), *self));
                        }
                    }
                    match merged {
                        Ok(()) => {},
                        Err(err) => {
                            proof {
                                self.lemma_no_input_fits(is_start);
                            }
                            return Err(err);
                        },
                    }
                },
            }
        }
    }

    /// Where no run of fields is the stream's input, no bytes of results are
    /// either.
    proof fn lemma_no_input_fits(&self, is_start: CodedInputStream)
        requires
            forall|fs: Seq<ResponseField>| #[trigger] response_input(fs, input_bytes(is_start)) ==> false,
        ensures
            forall|ws: Seq<Seq<char>>| results_encodable(ws) ==> input_bytes(is_start) != Some(#[trigger] results_bytes(ws)),
            forall|fs: Seq<ResponseField>| (forall|i: int| 0 <= i < fs.len() ==> response_field_valid(#[trigger] fs[i]))
                ==> input_bytes(is_start) != Some(#[trigger] response_fields_bytes(fs)),
    {
        assert forall|ws: Seq<Seq<char>>| results_encodable(ws) implies input_bytes(is_start) != Some(#[trigger] results_bytes(ws)) by {
            lemma_results_as_fields(ws);
            if input_bytes(is_start) == Some(results_bytes(ws)) {
                assert(response_input(as_result_fields(ws), input_bytes(is_start)));
            }
        }
        assert forall|fs: Seq<ResponseField>| (forall|i: int| 0 <= i < fs.len() ==> response_field_valid(#[trigger] fs[i]))
            implies input_bytes(is_start) != Some(#[trigger] response_fields_bytes(fs)) by {
            if input_bytes(is_start) == Some(response_fields_bytes(fs)) {
                assert(response_input(fs, input_bytes(is_start)));
            }
        }
    }

    /// The outcome for runs of fields carries over to the bytes of results.
    proof fn lemma_outcome_for_all_inputs(&self, start: SearchResponse, is_start: CodedInputStream, is_end: CodedInputStream)
        requires
            forall|fs: Seq<ResponseField>| #[trigger] response_input(fs, input_bytes(is_start)) ==>
                repeated_strings(self.results) == repeated_strings(start.results) + results_in(fs)
                    && unknown_field_numbers(self.unknown_fields) == unknown_field_numbers(start.unknown_fields) + unknown_numbers_in(fs)
                    && (!has_unknown(fs) ==> self.unknown_fields == start.unknown_fields)
                    && input_bytes(is_end) == Some(Seq::<u8>::empty()),
        ensures
            forall|ws: Seq<Seq<char>>| results_encodable(ws) && input_bytes(is_start) == Some(#[trigger] results_bytes(ws))
                ==> repeated_strings(self.results) == repeated_strings(start.results) + ws
                    && self.unknown_fields == start.unknown_fields
                    && input_bytes(is_end) == Some(Seq::<u8>::empty()),
            forall|fs: Seq<ResponseField>| (forall|i: int| 0 <= i < fs.len() ==> response_field_valid(#[trigger] fs[i]))
                && input_bytes(is_start) == Some(#[trigger] response_fields_bytes(fs))
                ==> repeated_strings(self.results) == repeated_strings(start.results) + results_in(fs)
                    && unknown_field_numbers(self.unknown_fields) == unknown_field_numbers(start.unknown_fields) + unknown_numbers_in(fs)
                    && (!has_unknown(fs) ==> self.unknown_fields == start.unknown_fields)
                    && input_bytes(is_end) == Some(Seq::<u8>::empty()),
    {
        assert forall|ws: Seq<Seq<char>>| results_encodable(ws) && input_bytes(is_start) == Some(#[trigger] results_bytes(ws))
            implies repeated_strings(self.results) == repeated_strings(start.results) + ws
                && self.unknown_fields == start.unknown_fields
                && input_bytes(is_end) == Some(Seq::<u8>::empty()) by {
            lemma_results_as_fields(ws);
            assert(response_input(as_result_fields(ws), input_bytes(is_start)));
        }
        assert forall|fs: Seq<ResponseField>| (forall|i: int| 0 <= i < fs.len() ==> response_field_valid(#[trigger] fs[i]))
            && input_bytes(is_start) == Some(#[trigger] response_fields_bytes(fs))
            implies repeated_strings(self.results) == repeated_strings(start.results) + results_in(fs)
                && unknown_field_numbers(self.unknown_fields) == unknown_field_numbers(start.unknown_fields) + unknown_numbers_in(fs)
                && (!has_unknown(fs) ==> self.unknown_fields == start.unknown_fields)
                && input_bytes(is_end) == Some(Seq::<u8>::empty()) by {
            assert(response_input(fs, input_bytes(is_start)));
        }
    }
}

impl Default for SearchResponse {
    fn default() -> (r: SearchResponse)
        ensures
            repeated_strings(r.results) == Seq::<Seq<char>>::empty(),
            unknown_fields_size_of(r.unknown_fields) == 0,
            unknown_field_numbers(r.unknown_fields) == Set::<u32>::empty(),
    {
        SearchResponse::new()
    }
}


/// The encoded size of one field of a request.
pub open spec fn request_field_size(r: SearchRequest, f: RequestField) -> nat {
    match f {
        RequestField::Query => string_field_size(1, r.query@),
        RequestField::PageNumber => int32_field_size(2, r.page_number, WireType::WireTypeVarint),
        RequestField::ResultPerPage => int32_field_size(3, r.result_per_page, WireType::WireTypeVarint),
    }
}

/// The summed encoded size of some fields of a request.
pub open spec fn request_fields_size(r: SearchRequest, fs: Seq<RequestField>) -> nat
    decreases fs.len(),
{
    if fs.len() == 0 {
        0
    } else {
        request_fields_size(r, fs.drop_last()) + request_field_size(r, fs.last())
    }
}

proof fn lemma_request_fields_size_append(r: SearchRequest, a: Seq<RequestField>, f: RequestField)
    ensures
        request_fields_size(r, a.push(f)) == request_fields_size(r, a) + request_field_size(r, f),
{
    assert(a.push(f).drop_last() =~= a);
}

/// The size that `compute_size` reports is exactly the size of the fields
/// that serialization writes, plus that of the unknown fields.
pub proof fn size_counts_the_written_fields(r: SearchRequest)
    ensures
        r.spec_size() == request_fields_size(r, spec_request_fields(r.query@, r.page_number, r.result_per_page))
            + unknown_fields_size_of(r.unknown_fields),
{
    let e = Seq::<RequestField>::empty();
    let q = if r.query@.len() > 0 { seq![RequestField::Query] } else { e };
    let p = if r.page_number != 0 { seq![RequestField::PageNumber] } else { e };
    let rp = if r.result_per_page != 0 { seq![RequestField::ResultPerPage] } else { e };
    assert(request_fields_size(r, e) == 0);
    if r.query@.len() > 0 {
        assert(q =~= e.push(RequestField::Query));
        lemma_request_fields_size_append(r, e, RequestField::Query);
    } else {
        assert(q =~= e);
    }
    if r.page_number != 0 {
        assert(q + p =~= q.push(RequestField::PageNumber));
        lemma_request_fields_size_append(r, q, RequestField::PageNumber);
    } else {
        assert(q + p =~= q);
    }
    if r.result_per_page != 0 {
        assert(q + p + rp =~= (q + p).push(RequestField::ResultPerPage));
        lemma_request_fields_size_append(r, q + p, RequestField::ResultPerPage);
    } else {
        assert(q + p + rp =~= q + p);
    }
}

/// A request with every field at its default encodes to nothing beyond its
/// unknown fields, and writes no field.
pub proof fn default_request_is_empty_on_the_wire(r: SearchRequest)
    requires
        r.query@.len() == 0,
        r.page_number == 0,
        r.result_per_page == 0,
    ensures
        r.spec_size() == unknown_fields_size_of(r.unknown_fields),
        spec_request_fields(r.query@, r.page_number, r.result_per_page) == Seq::<RequestField>::empty(),
{
    assert(spec_request_fields(r.query@, r.page_number, r.result_per_page) =~= Seq::<RequestField>::empty());
}

/// A response without results encodes to nothing beyond its unknown fields.
pub proof fn empty_response_is_empty_on_the_wire(r: SearchResponse)
    requires
        repeated_strings(r.results).len() == 0,
    ensures
        r.spec_size() == unknown_fields_size_of(r.unknown_fields),
{
}

proof fn lemma_request_fields_bytes_len(r: SearchRequest, fs: Seq<RequestField>)
    requires
        encode_utf8(r.query@).len() < 0x1_0000_0000,
    ensures
        request_fields_bytes(r, fs).len() == request_fields_size(r, fs),
    decreases fs.len(),
{
    if fs.len() > 0 {
        lemma_request_fields_bytes_len(r, fs.drop_last());
        match fs.last() {
            RequestField::Query => lemma_string_field_bytes_len(1, r.query@),
            RequestField::PageNumber => lemma_int32_field_bytes_len(2, r.page_number),
            RequestField::ResultPerPage => lemma_int32_field_bytes_len(3, r.result_per_page),
        }
    }
}

/// What `compute_size` counts is exactly what `write_to_with_cached_sizes`
/// writes: the bytes of the set fields plus the unknown fields (for a query
/// shorter than 2^32 bytes, whose length prefix the runtime writes in 32 bits).
pub proof fn request_size_is_bytes_written(r: SearchRequest)
    requires
        encode_utf8(r.query@).len() < 0x1_0000_0000,
    ensures
        r.spec_size() == request_bytes(r).len() + unknown_fields_size_of(r.unknown_fields),
{
    size_counts_the_written_fields(r);
    lemma_request_fields_bytes_len(r, spec_request_fields(r.query@, r.page_number, r.result_per_page));
}

proof fn lemma_results_bytes_len(results: Seq<Seq<char>>)
    requires
        forall|i: int| 0 <= i < results.len() ==> encode_utf8(#[trigger] results[i]).len() < 0x1_0000_0000,
    ensures
        results_bytes(results).len() == results_size(results),
    decreases results.len(),
{
    if results.len() > 0 {
        let init = results.drop_last();
        assert forall|i: int| 0 <= i < init.len() implies encode_utf8(#[trigger] init[i]).len() < 0x1_0000_0000 by {
            assert(init[i] == results[i]);
        }
        lemma_results_bytes_len(init);
        assert(results.last() == results[results.len() - 1]);
        lemma_string_field_bytes_len(1, results.last());
    }
}

/// What `compute_size` counts is exactly what `write_to_with_cached_sizes`
/// writes: every result as field 1, plus the unknown fields (for results
/// shorter than 2^32 bytes each).
pub proof fn response_size_is_bytes_written(r: SearchResponse)
    requires
        forall|i: int| 0 <= i < repeated_strings(r.results).len() ==> encode_utf8(#[trigger] repeated_strings(r.results)[i]).len() < 0x1_0000_0000,
    ensures
        r.spec_size() == results_bytes(repeated_strings(r.results)).len() + unknown_fields_size_of(r.unknown_fields),
{
    lemma_results_bytes_len(repeated_strings(r.results));
}

/// The field number and wire type under which a request writes `f`.
pub open spec fn request_field_tag(f: RequestField) -> (u32, WireType) {
    match f {
        RequestField::Query => (1, WireType::WireTypeLengthDelimited),
        RequestField::PageNumber => (2, WireType::WireTypeVarint),
        RequestField::ResultPerPage => (3, WireType::WireTypeVarint),
    }
}

/// What follows the tag of field `f` of a request: the field's value in
/// the form the read under that tag takes.
pub open spec fn request_field_payload(r: SearchRequest, f: RequestField) -> Seq<u8> {
    match f {
        RequestField::Query => string_payload(r.query@),
        RequestField::PageNumber => int32_payload(r.page_number),
        RequestField::ResultPerPage => int32_payload(r.result_per_page),
    }
}

/// The action `merge_field` takes for the tag of `f`.
pub open spec fn request_field_read(f: RequestField) -> RequestFieldAction {
    match f {
        RequestField::Query => RequestFieldAction::ReadQuery,
        RequestField::PageNumber => RequestFieldAction::ReadPageNumber,
        RequestField::ResultPerPage => RequestFieldAction::ReadResultPerPage,
    }
}

/// Each field a request writes is its tag followed by the payload that
/// `merge_field` reads back: the tag's field number and wire type make
/// `merge_field` read that very field, and the payload is the field's value
/// in the form the read takes (so merging it stores the value written).
pub proof fn written_request_fields_read_back(r: SearchRequest, f: RequestField)
    ensures
        request_field_bytes(r, f) == tag_bytes(request_field_tag(f).0 as nat, request_field_tag(f).1) + request_field_payload(r, f),
        spec_request_field_action(request_field_tag(f).0, request_field_tag(f).1) == request_field_read(f),
{
}

/// The fields a request's bytes carry, in order.
pub open spec fn request_field_list(w: SearchRequest) -> Seq<RequestField> {
    spec_request_fields(w.query@, w.page_number, w.result_per_page)
}

/// `after` is `before` with the fields of `w` listed in `fs` merged in: each
/// such field takes `w`'s value, every other field and the unknown fields
/// stay.
pub open spec fn request_merged(before: SearchRequest, w: SearchRequest, fs: Seq<RequestField>, after: SearchRequest) -> bool {
    &&& after.query@ == (if fs.contains(RequestField::Query) { w.query@ } else { before.query@ })
    &&& after.page_number == (if fs.contains(RequestField::PageNumber) { w.page_number } else { before.page_number })
    &&& after.result_per_page == (if fs.contains(RequestField::ResultPerPage) { w.result_per_page } else { before.result_per_page })
    &&& after.unknown_fields == before.unknown_fields
}

/// A request whose own fields the runtime writes faithfully: its query is
/// shorter than 2^32 bytes.
pub open spec fn request_encodable(w: SearchRequest) -> bool {
    encode_utf8(w.query@).len() < 0x1_0000_0000
}

proof fn lemma_request_fields_bytes_first(r: SearchRequest, fs: Seq<RequestField>)
    requires
        fs.len() > 0,
    ensures
        request_fields_bytes(r, fs) == request_field_bytes(r, fs[0]) + request_fields_bytes(r, fs.drop_first()),
    decreases fs.len(),
{
    if fs.len() == 1 {
        assert(fs.drop_first() =~= Seq::<RequestField>::empty());
        assert(fs.drop_last() =~= Seq::<RequestField>::empty());
        assert(request_fields_bytes(r, fs) =~= request_field_bytes(r, fs[0]));
    } else {
        lemma_request_fields_bytes_first(r, fs.drop_last());
        assert(fs.drop_last().drop_first() =~= fs.drop_first().drop_last());
        assert(fs.drop_first().last() == fs.last());
        assert(fs.drop_last()[0] == fs[0]);
        assert(request_fields_bytes(r, fs) =~= request_field_bytes(r, fs[0]) + request_fields_bytes(r, fs.drop_first()));
    }
}

proof fn lemma_request_fields_bytes_nonempty(r: SearchRequest, fs: Seq<RequestField>)
    requires
        fs.len() > 0,
    ensures
        request_fields_bytes(r, fs).len() > 0,
{
    lemma_request_fields_bytes_first(r, fs);
    written_request_fields_read_back(r, fs[0]);
    let f = fs[0];
    assert(tag_bytes(request_field_tag(f).0 as nat, request_field_tag(f).1).len() > 0);
}

/// Decoding the bytes of `w` has merged its first `k` fields into `cur`
/// (starting from `start`), and the stream holds the bytes of the rest.
spec fn request_decoding_at(start: SearchRequest, w: SearchRequest, k: int, input: Option<Seq<u8>>, cur: SearchRequest) -> bool {
    &&& 0 <= k <= request_field_list(w).len()
    &&& input == Some(request_fields_bytes(w, request_field_list(w).skip(k)))
    &&& request_merged(start, w, request_field_list(w).take(k), cur)
}

/// Past the `k`-th field's tag: from `input0` (where decoding stood at `k`)
/// the tag read gave `t`, the tag of that field, and `input1` holds its
/// payload and the bytes of the fields after it.
spec fn request_tag_read(start: SearchRequest, w: SearchRequest, k: int, input0: Option<Seq<u8>>, cur: SearchRequest, t: Result<(u32, WireType), ProtobufError>, input1: Option<Seq<u8>>) -> bool {
    &&& request_decoding_at(start, w, k, input0, cur)
    &&& k < request_field_list(w).len()
    &&& t matches Ok(tt) && tt == request_field_tag(request_field_list(w)[k])
    &&& input1 == Some(request_field_payload(w, request_field_list(w)[k]) + request_fields_bytes(w, request_field_list(w).skip(k + 1)))
}

proof fn lemma_request_next_field(w: SearchRequest, k: int)
    requires
        0 <= k < request_field_list(w).len(),
    ensures
        request_fields_bytes(w, request_field_list(w).skip(k)) == tag_bytes(request_field_tag(request_field_list(w)[k]).0 as nat, request_field_tag(request_field_list(w)[k]).1)
            + request_field_payload(w, request_field_list(w)[k]) + request_fields_bytes(w, request_field_list(w).skip(k + 1)),
        0 < request_field_tag(request_field_list(w)[k]).0 <= FIELD_NUMBER_MAX,
        spec_request_field_action(request_field_tag(request_field_list(w)[k]).0, request_field_tag(request_field_list(w)[k]).1) == request_field_read(request_field_list(w)[k]),
{
    let fl = request_field_list(w);
    let f = fl[k];
    lemma_request_fields_bytes_first(w, fl.skip(k));
    assert(fl.skip(k)[0] == f);
    assert(fl.skip(k).drop_first() =~= fl.skip(k + 1));
    written_request_fields_read_back(w, f);
}

proof fn lemma_request_merge_step(start: SearchRequest, w: SearchRequest, k: int, mid: SearchRequest, after: SearchRequest)
    requires
        0 <= k < request_field_list(w).len(),
        request_merged(start, w, request_field_list(w).take(k), mid),
        after.query@ == (if request_field_list(w)[k] == RequestField::Query { w.query@ } else { mid.query@ }),
        after.page_number == (if request_field_list(w)[k] == RequestField::PageNumber { w.page_number } else { mid.page_number }),
        after.result_per_page == (if request_field_list(w)[k] == RequestField::ResultPerPage { w.result_per_page } else { mid.result_per_page }),
        after.unknown_fields == mid.unknown_fields,
    ensures
        request_merged(start, w, request_field_list(w).take(k + 1), after),
{
    let fl = request_field_list(w);
    let t = fl.take(k);
    let t1 = fl.take(k + 1);
    assert(t1 =~= t.push(fl[k]));
    assert forall|g: RequestField| t1.contains(g) <==> (t.contains(g) || g == fl[k]) by {
        if t1.contains(g) {
            let i = choose|i: int| 0 <= i < t1.len() && t1[i] == g;
            if i < k {
                assert(t[i] == g);
            }
        }
        if t.contains(g) {
            let i = choose|i: int| 0 <= i < t.len() && t[i] == g;
            assert(t1[i] == g);
        }
        if g == fl[k] {
            assert(t1[k] == g);
        }
    }
}

/// The field list of a request names each field at most once, in order.
proof fn lemma_request_field_list_distinct(w: SearchRequest)
    ensures
        forall|i: int, j: int| 0 <= i < j < request_field_list(w).len() ==> request_field_list(w)[i] != request_field_list(w)[j],
{
}

/// Results whose strings the runtime writes faithfully: each shorter than
/// 2^32 bytes.
pub open spec fn results_encodable(ws: Seq<Seq<char>>) -> bool {
    forall|i: int| 0 <= i < ws.len() ==> encode_utf8(#[trigger] ws[i]).len() < 0x1_0000_0000
}

/// The bytes of results begin with the first result, written as field 1,
/// followed by the bytes of the others: results are written front first.
pub proof fn lemma_results_bytes_first(ws: Seq<Seq<char>>)
    requires
        ws.len() > 0,
    ensures
        results_bytes(ws) == tag_bytes(1, WireType::WireTypeLengthDelimited) + string_payload(ws[0]) + results_bytes(ws.drop_first()),
    decreases ws.len(),
{
    if ws.len() == 1 {
        assert(ws.drop_first() =~= Seq::<Seq<char>>::empty());
        assert(ws.drop_last() =~= Seq::<Seq<char>>::empty());
        assert(results_bytes(ws) =~= tag_bytes(1, WireType::WireTypeLengthDelimited) + string_payload(ws[0]) + results_bytes(ws.drop_first()));
    } else {
        lemma_results_bytes_first(ws.drop_last());
        assert(ws.drop_last().drop_first() =~= ws.drop_first().drop_last());
        assert(ws.drop_first().last() == ws.last());
        assert(ws.drop_last()[0] == ws[0]);
        assert(results_bytes(ws) =~= tag_bytes(1, WireType::WireTypeLengthDelimited) + string_payload(ws[0]) + results_bytes(ws.drop_first()));
    }
}

/// Decoding the bytes of results `ws` has appended the first `k` of them to
/// `start`'s results in `cur`, and the stream holds the bytes of the rest.
spec fn results_decoding_at(start: SearchResponse, ws: Seq<Seq<char>>, k: int, input: Option<Seq<u8>>, cur: SearchResponse) -> bool {
    &&& 0 <= k <= ws.len()
    &&& input == Some(results_bytes(ws.skip(k)))
    &&& repeated_strings(cur.results) == repeated_strings(start.results) + ws.take(k)
    &&& cur.unknown_fields == start.unknown_fields
    &&& repeated_strings(cur.results).len() <= isize::MAX
}

/// Past the `k`-th result's tag: `t` is the tag of field 1, length-delimited,
/// and `input1` holds the result's payload and the bytes of those after it.
spec fn results_tag_read(start: SearchResponse, ws: Seq<Seq<char>>, k: int, input0: Option<Seq<u8>>, cur: SearchResponse, t: Result<(u32, WireType), ProtobufError>, input1: Option<Seq<u8>>) -> bool {
    &&& results_decoding_at(start, ws, k, input0, cur)
    &&& k < ws.len()
    &&& t matches Ok(tt) && tt == (1u32, WireType::WireTypeLengthDelimited)
    &&& input1 == Some(string_payload(ws[k]) + results_bytes(ws.skip(k + 1)))
}

/// Merging the bytes of `w` into a fresh request gives back `w`'s fields:
/// a field that `w` leaves out of its bytes holds its default, which is
/// what the fresh request holds too.
pub proof fn fresh_request_reads_back(fresh: SearchRequest, w: SearchRequest, after: SearchRequest)
    requires
        fresh.query@ == Seq::<char>::empty(),
        fresh.page_number == 0,
        fresh.result_per_page == 0,
        request_merged(fresh, w, request_field_list(w), after),
    ensures
        after.query@ == w.query@,
        after.page_number == w.page_number,
        after.result_per_page == w.result_per_page,
        after.unknown_fields == fresh.unknown_fields,
{
    let fl = request_field_list(w);
    if w.query@.len() > 0 {
        assert(fl[0] == RequestField::Query);
    }
    if w.page_number != 0 {
        let i: int = if w.query@.len() > 0 { 1 } else { 0 };
        assert(fl[i] == RequestField::PageNumber);
    }
    if w.result_per_page != 0 {
        let i: int = fl.len() - 1;
        assert(fl[i] == RequestField::ResultPerPage);
    }
}

/// Where a write appends the given bytes as a prefix and nothing beyond their
/// length (as `write_to_with_cached_sizes` does for a message whose unknown
/// fields are empty, of size 0), the stream holds exactly those bytes after
/// what it held: for a request, `request_bytes`, which `merge_from` reads back.
pub proof fn write_without_unknown_fields_is_exact(before: Seq<u8>, written: Seq<u8>, after: Seq<u8>)
    requires
        (before + written).is_prefix_of(after),
        after.len() == before.len() + written.len(),
    ensures
        after == before + written,
{
    assert(after =~= before + written) by {
        assert(after.subrange(0, (before + written).len() as int) =~= after);
    }
}

/// A field that a response's bytes may carry: a result (field 1), or a
/// field unknown to the response carrying a varint.
pub enum ResponseField {
    Result(Seq<char>),
    UnknownVarint(u32, nat),
}

/// The bytes of one such field: its tag, then its payload.
pub open spec fn response_field_bytes(f: ResponseField) -> Seq<u8> {
    match f {
        ResponseField::Result(s) => tag_bytes(1, WireType::WireTypeLengthDelimited) + string_payload(s),
        ResponseField::UnknownVarint(n, v) => tag_bytes(n as nat, WireType::WireTypeVarint) + varint_bytes(v),
    }
}

/// The bytes of a run of such fields, in order.
pub open spec fn response_fields_bytes(fs: Seq<ResponseField>) -> Seq<u8>
    decreases fs.len(),
{
    if fs.len() == 0 {
        Seq::empty()
    } else {
        response_fields_bytes(fs.drop_last()) + response_field_bytes(fs.last())
    }
}

/// A field the runtime writes faithfully: a result shorter than 2^32 bytes,
/// or an unknown field under an allowed number other than 1 with a value
/// below 2^64.
pub open spec fn response_field_valid(f: ResponseField) -> bool {
    match f {
        ResponseField::Result(s) => encode_utf8(s).len() < 0x1_0000_0000,
        ResponseField::UnknownVarint(n, v) => 1 < n <= FIELD_NUMBER_MAX && v < 0x1_0000_0000_0000_0000,
    }
}

/// The results among some fields, in order.
pub open spec fn results_in(fs: Seq<ResponseField>) -> Seq<Seq<char>>
    decreases fs.len(),
{
    if fs.len() == 0 {
        Seq::empty()
    } else {
        match fs.last() {
            ResponseField::Result(s) => results_in(fs.drop_last()).push(s),
            ResponseField::UnknownVarint(_, _) => results_in(fs.drop_last()),
        }
    }
}

/// The numbers of the unknown fields among some fields.
pub open spec fn unknown_numbers_in(fs: Seq<ResponseField>) -> Set<u32>
    decreases fs.len(),
{
    if fs.len() == 0 {
        Set::empty()
    } else {
        match fs.last() {
            ResponseField::Result(_) => unknown_numbers_in(fs.drop_last()),
            ResponseField::UnknownVarint(n, _) => unknown_numbers_in(fs.drop_last()).insert(n),
        }
    }
}

/// Some of the fields are unknown ones.
pub open spec fn has_unknown(fs: Seq<ResponseField>) -> bool {
    exists|i: int| 0 <= i < fs.len() && (#[trigger] fs[i]) is UnknownVarint
}

proof fn lemma_response_fields_bytes_first(fs: Seq<ResponseField>)
    requires
        fs.len() > 0,
    ensures
        response_fields_bytes(fs) == response_field_bytes(fs[0]) + response_fields_bytes(fs.drop_first()),
    decreases fs.len(),
{
    if fs.len() == 1 {
        assert(fs.drop_first() =~= Seq::<ResponseField>::empty());
        assert(fs.drop_last() =~= Seq::<ResponseField>::empty());
        assert(response_fields_bytes(fs) =~= response_field_bytes(fs[0]) + response_fields_bytes(fs.drop_first()));
    } else {
        lemma_response_fields_bytes_first(fs.drop_last());
        assert(fs.drop_last().drop_first() =~= fs.drop_first().drop_last());
        assert(fs.drop_first().last() == fs.last());
        assert(fs.drop_last()[0] == fs[0]);
        assert(response_fields_bytes(fs) =~= response_field_bytes(fs[0]) + response_fields_bytes(fs.drop_first()));
    }
}

/// Results seen as response fields.
pub open spec fn as_result_fields(ws: Seq<Seq<char>>) -> Seq<ResponseField> {
    ws.map_values(|s: Seq<char>| ResponseField::Result(s))
}

/// Results written on their own are the same bytes as the same results seen
/// as response fields.
proof fn lemma_results_as_fields(ws: Seq<Seq<char>>)
    ensures
        response_fields_bytes(as_result_fields(ws)) == results_bytes(ws),
        results_in(as_result_fields(ws)) == ws,
        unknown_numbers_in(as_result_fields(ws)) == Set::<u32>::empty(),
        !has_unknown(as_result_fields(ws)),
        results_encodable(ws) ==> forall|i: int| 0 <= i < ws.len() ==> response_field_valid(#[trigger] as_result_fields(ws)[i]),
    decreases ws.len(),
{
    let fs = as_result_fields(ws);
    if ws.len() > 0 {
        lemma_results_as_fields(ws.drop_last());
        assert(fs.drop_last() =~= as_result_fields(ws.drop_last()));
        assert(fs.last() == ResponseField::Result(ws.last()));
        assert(ws.drop_last().push(ws.last()) =~= ws);
        assert(response_fields_bytes(fs) =~= results_bytes(ws));
    } else {
        assert(results_in(fs) =~= ws);
    }
    if results_encodable(ws) {
        assert forall|i: int| 0 <= i < ws.len() implies response_field_valid(#[trigger] fs[i]) by {
            assert(fs[i] == ResponseField::Result(ws[i]));
        }
    }
}

/// Decoding the fields `fs` has merged the first `k` of them into `cur`
/// (starting from `start`), and the stream holds the bytes of the rest.
spec fn response_decoding_at(start: SearchResponse, fs: Seq<ResponseField>, k: int, input: Option<Seq<u8>>, cur: SearchResponse) -> bool {
    &&& 0 <= k <= fs.len()
    &&& input == Some(response_fields_bytes(fs.skip(k)))
    &&& repeated_strings(cur.results) == repeated_strings(start.results) + results_in(fs.take(k))
    &&& unknown_field_numbers(cur.unknown_fields) == unknown_field_numbers(start.unknown_fields) + unknown_numbers_in(fs.take(k))
    &&& !has_unknown(fs.take(k)) ==> cur.unknown_fields == start.unknown_fields
    &&& repeated_strings(cur.results).len() <= isize::MAX
}

/// Past the `k`-th field's tag, which the tag read gave as `t`; `input1`
/// holds the field's payload and the bytes of the fields after it.
spec fn response_tag_read(start: SearchResponse, fs: Seq<ResponseField>, k: int, input0: Option<Seq<u8>>, cur: SearchResponse, t: Result<(u32, WireType), ProtobufError>, input1: Option<Seq<u8>>) -> bool {
    &&& response_decoding_at(start, fs, k, input0, cur)
    &&& k < fs.len()
    &&& t matches Ok(tt) && match fs[k] {
        ResponseField::Result(s) => tt == (1u32, WireType::WireTypeLengthDelimited) && input1 == Some(string_payload(s) + response_fields_bytes(fs.skip(k + 1))),
        ResponseField::UnknownVarint(n, v) => tt == (n, WireType::WireTypeVarint) && input1 == Some(varint_bytes(v) + response_fields_bytes(fs.skip(k + 1))),
    }
}

/// The well-formed input of a response's merge: valid fields, given as bytes.
spec fn response_input(fs: Seq<ResponseField>, input: Option<Seq<u8>>) -> bool {
    &&& forall|i: int| 0 <= i < fs.len() ==> response_field_valid(#[trigger] fs[i])
    &&& input == Some(response_fields_bytes(fs))
}

proof fn lemma_response_step(fs: Seq<ResponseField>, k: int)
    requires
        0 <= k < fs.len(),
    ensures
        fs.take(k + 1) == fs.take(k).push(fs[k]),
        results_in(fs.take(k + 1)) == match fs[k] {
            ResponseField::Result(s) => results_in(fs.take(k)).push(s),
            ResponseField::UnknownVarint(_, _) => results_in(fs.take(k)),
        },
        unknown_numbers_in(fs.take(k + 1)) == match fs[k] {
            ResponseField::Result(_) => unknown_numbers_in(fs.take(k)),
            ResponseField::UnknownVarint(n, _) => unknown_numbers_in(fs.take(k)).insert(n),
        },
        has_unknown(fs.take(k + 1)) == (has_unknown(fs.take(k)) || fs[k] is UnknownVarint),
        response_fields_bytes(fs.skip(k)) == response_field_bytes(fs[k]) + response_fields_bytes(fs.skip(k + 1)),
{
    let t = fs.take(k);
    let t1 = fs.take(k + 1);
    assert(t1 =~= t.push(fs[k]));
    assert(t1.drop_last() =~= t);
    assert(t1.last() == fs[k]);
    if has_unknown(t1) {
        let i = choose|i: int| 0 <= i < t1.len() && (#[trigger] t1[i]) is UnknownVarint;
        if i < k {
            assert(t[i] == t1[i]);
        }
    }
    if has_unknown(t) {
        let i = choose|i: int| 0 <= i < t.len() && (#[trigger] t[i]) is UnknownVarint;
        assert(t1[i] == t[i]);
    }
    if fs[k] is UnknownVarint {
        assert(t1[k] == fs[k]);
    }
    lemma_response_fields_bytes_first(fs.skip(k));
    assert(fs.skip(k)[0] == fs[k]);
    assert(fs.skip(k).drop_first() =~= fs.skip(k + 1));
}

/// Each result a response writes is the tag of field 1, length-delimited,
/// followed by the payload that `merge_field` under that tag appends back.
pub proof fn written_results_read_back(results: Seq<Seq<char>>, s: Seq<char>)
    ensures
        results_bytes(results.push(s)) == results_bytes(results) + varint_bytes(1 * 8 + 2) + string_payload(s),
{
    assert(results.push(s).drop_last() =~= results);
    assert(results_bytes(results.push(s)) =~= results_bytes(results) + varint_bytes(1 * 8 + 2) + string_payload(s));
}

/// Only the query and the two integers check their wire type: a field with
/// any other number is kept as unknown whatever its wire type, so merging it
/// never reports an unexpected wire type. The query is read only when
/// length-delimited, the integers only as varints.
pub proof fn only_known_fields_check_the_wire_type(field_number: u32, wt: WireType)
    ensures
        field_number != 1 && field_number != 2 && field_number != 3 ==> spec_request_field_action(field_number, wt) == RequestFieldAction::Unknown,
        field_number == 1 ==> spec_request_field_action(field_number, wt) == (if wt == WireType::WireTypeLengthDelimited {
            RequestFieldAction::ReadQuery
        } else {
            RequestFieldAction::WrongWireType
        }),
        field_number == 2 ==> spec_request_field_action(field_number, wt) == (if wt == WireType::WireTypeVarint {
            RequestFieldAction::ReadPageNumber
        } else {
            RequestFieldAction::WrongWireType
        }),
        field_number == 3 ==> spec_request_field_action(field_number, wt) == (if wt == WireType::WireTypeVarint {
            RequestFieldAction::ReadResultPerPage
        } else {
            RequestFieldAction::WrongWireType
        }),
{
}

} // verus!
