//! The parts of the protobuf runtime that the messages use, with what the
//! runtime's source shows of them.
use vstd::prelude::*;
use vstd::utf8::encode_utf8;

use protobuf::wire_format::WireType as PbWireType;
use protobuf::{CachedSize, CodedInputStream, CodedOutputStream, ProtobufError, RepeatedField, UnknownFields};

verus! {

#[verifier::external_type_specification]
#[verifier::external_body]
pub struct ExUnknownFields(protobuf::UnknownFields);

#[verifier::external_type_specification]
#[verifier::external_body]
pub struct ExCachedSize(protobuf::CachedSize);

#[verifier::external_type_specification]
#[verifier::external_body]
#[verifier::reject_recursive_types(T)]
pub struct ExRepeatedField<T>(protobuf::RepeatedField<T>);

#[verifier::external_type_specification]
#[verifier::external_body]
pub struct ExCodedInputStream<'a>(protobuf::CodedInputStream<'a>);

#[verifier::external_type_specification]
#[verifier::external_body]
pub struct ExCodedOutputStream<'a>(protobuf::CodedOutputStream<'a>);

#[verifier::external_type_specification]
#[verifier::external_body]
pub struct ExProtobufError(protobuf::ProtobufError);

/// The six protobuf wire types.
#[derive(Clone, Copy, Debug, PartialEq, Eq, Structural)]
pub enum WireType {
    WireTypeVarint,
    WireTypeFixed64,
    WireTypeLengthDelimited,
    WireTypeStartGroup,
    WireTypeEndGroup,
    WireTypeFixed32,
}

/// The largest field number protobuf allows.
pub const FIELD_NUMBER_MAX: u32 = 0x1fffffff;

/// The number of bytes of the varint encoding of `v`: one per started group
/// of seven bits, at least one.
pub open spec fn varint64_size(v: nat) -> nat {
    if v < 0x80 {
        1
    } else if v < 0x4000 {
        2
    } else if v < 0x20_0000 {
        3
    } else if v < 0x1000_0000 {
        4
    } else if v < 0x8_0000_0000 {
        5
    } else if v < 0x400_0000_0000 {
        6
    } else if v < 0x2_0000_0000_0000 {
        7
    } else if v < 0x100_0000_0000_0000 {
        8
    } else if v < 0x8000_0000_0000_0000 {
        9
    } else {
        10
    }
}

/// The encoded size of the tag of field `field_number`.
pub open spec fn tag_size(field_number: nat) -> nat {
    varint64_size(field_number * 8 + 1)
}

/// The encoded size of a string field: tag, length, UTF-8 bytes.
pub open spec fn string_field_size(field_number: nat, s: Seq<char>) -> nat {
    tag_size(field_number) + varint64_size(encode_utf8(s).len()) + encode_utf8(s).len()
}

/// The encoded size of an `int32` value as a varint: negative values are
/// sign-extended to 64 bits.
pub open spec fn int32_varint_size(v: i32) -> nat {
    if v >= 0 {
        varint64_size(v as nat)
    } else {
        varint64_size((v + 0x1_0000_0000_0000_0000) as nat)
    }
}

/// The encoded size of an `int32` field under wire type `wt` (varint or fixed).
pub open spec fn int32_field_size(field_number: nat, v: i32, wt: WireType) -> nat {
    tag_size(field_number) + match wt {
        WireType::WireTypeFixed64 => 8,
        WireType::WireTypeFixed32 => 4,
        _ => int32_varint_size(v),
    }
}

/// The number of bytes of the varint encoding of `v`.
pub fn varint64_len(v: u64) -> (r: u64)
    ensures
        r == varint64_size(v as nat),
{
    if v < 0x80 {
        1
    } else if v < 0x4000 {
        2
    } else if v < 0x20_0000 {
        3
    } else if v < 0x1000_0000 {
        4
    } else if v < 0x8_0000_0000 {
        5
    } else if v < 0x400_0000_0000 {
        6
    } else if v < 0x2_0000_0000_0000 {
        7
    } else if v < 0x100_0000_0000_0000 {
        8
    } else if v < 0x8000_0000_0000_0000 {
        9
    } else {
        10
    }
}

/// The encoded size of string field 1 holding `s`, when it fits in a `u32`.
pub fn string_field_len(s: &str) -> (r: Option<u32>)
    ensures
        string_field_size(1, s@) <= u32::MAX ==> r == Some(string_field_size(1, s@) as u32),
        string_field_size(1, s@) > u32::MAX ==> (r is None),
{
    let bytes = s.as_bytes();
    let len = bytes.len();
    assert(len as nat == encode_utf8(s@).len());
    assert(tag_size(1) == 1);
    if len as u64 > 0xffff_ffff {
        return None;
    }
    let len = len as u64;
    let size = 1 + varint64_len(len) + len;
    if size > 0xffff_ffff {
        None
    } else {
        Some(size as u32)
    }
}

/// The field numbers that a set of unknown fields holds values under.
pub uninterp spec fn unknown_field_numbers(u: UnknownFields) -> Set<u32>;

/// The encoded size of a set of unknown fields: for every value, its tag and
/// its payload, summed without bound (`rt::unknown_fields_size` returns it
/// when it fits in a `u32`).
pub uninterp spec fn unknown_fields_size_of(u: UnknownFields) -> nat;

/// Every unknown field number is one protobuf allows, and the encoded size
/// fits in a `u32`: then the runtime can size and write the unknown fields.
pub open spec fn unknown_fields_writable(u: UnknownFields) -> bool {
    &&& forall|n: u32| #[trigger] unknown_field_numbers(u).contains(n) ==> 0 < n <= FIELD_NUMBER_MAX
    &&& unknown_fields_size_of(u) <= u32::MAX
}

/// The strings that a `RepeatedField<String>` holds, in order.
pub uninterp spec fn repeated_strings(r: RepeatedField<String>) -> Seq<Seq<char>>;

/// `UnknownFields::new`: a set of unknown fields holding none, so of encoded size 0.
#[verifier::external_body]
pub(crate) fn new_unknown_fields() -> (r: UnknownFields)
    ensures
        unknown_field_numbers(r) == Set::<u32>::empty(),
        unknown_fields_size_of(r) == 0,
{
    UnknownFields::new()
}

/// `Clear::clear` on unknown fields: empties them, so their encoded size is 0.
#[verifier::external_body]
pub(crate) fn clear_unknown_fields(u: &mut UnknownFields)
    ensures
        unknown_field_numbers(*final(u)) == Set::<u32>::empty(),
        unknown_fields_size_of(*final(u)) == 0,
{
    protobuf::Clear::clear(u)
}

/// `rt::unknown_fields_size`: the encoded size of the unknown fields. The
/// runtime asserts that every field number is allowed (through `tag_size`)
/// and sums in a `u32`, so both are required.
#[verifier::external_body]
pub(crate) fn unknown_fields_size(u: &UnknownFields) -> (r: u32)
    requires
        unknown_fields_writable(*u),
    ensures
        r == unknown_fields_size_of(*u),
{
    protobuf::rt::unknown_fields_size(u)
}

/// `CachedSize::default`: a cached size; nothing is stated of its value.
#[verifier::external_body]
pub(crate) fn new_cached_size() -> CachedSize {
    CachedSize::default()
}

/// `CachedSize::get`. The value sits in an atomic that `set` changes through a
/// shared reference, so nothing is stated of what is read.
#[verifier::external_body]
pub(crate) fn cached_size_get(c: &CachedSize) -> u32 {
    c.get()
}

/// `CachedSize::set`: stores the size in the atomic (interior mutability).
#[verifier::external_body]
pub(crate) fn cached_size_set(c: &CachedSize, size: u32) {
    c.set(size)
}

/// `RepeatedField::new`: an empty repeated field.
#[verifier::external_body]
pub(crate) fn new_repeated_strings() -> (r: RepeatedField<String>)
    ensures
        repeated_strings(r) == Seq::<Seq<char>>::empty(),
{
    RepeatedField::new()
}

/// `RepeatedField::clear`: afterwards the field holds no element.
#[verifier::external_body]
pub(crate) fn clear_repeated_strings(r: &mut RepeatedField<String>)
    ensures
        repeated_strings(*final(r)) == Seq::<Seq<char>>::empty(),
{
    r.clear()
}

/// `RepeatedField::as_slice`: the held strings, in order.
#[verifier::external_body]
pub(crate) fn repeated_strings_slice(r: &RepeatedField<String>) -> (s: &[String])
    ensures
        s@.map_values(|x: String| x@) == repeated_strings(*r),
        s@.len() <= isize::MAX,
{
    r.as_slice()
}

/// `String::clear`: afterwards the string is empty.
#[verifier::external_body]
pub(crate) fn clear_string(s: &mut String)
    ensures
        final(s)@ == Seq::<char>::empty(),
{
    s.clear()
}

/// `rt::string_size`: tag size, varint length prefix and UTF-8 bytes.
#[verifier::external_body]
pub(crate) fn string_size(field_number: u32, s: &str) -> (r: u32)
    requires
        0 < field_number <= FIELD_NUMBER_MAX,
        string_field_size(field_number as nat, s@) <= u32::MAX,
    ensures
        r == string_field_size(field_number as nat, s@),
{
    protobuf::rt::string_size(field_number, s)
}

/// `rt::value_size` for an `int32` value: tag size and the value's size under
/// the wire type, which must be varint or fixed (the runtime panics otherwise).
#[verifier::external_body]
pub(crate) fn int32_value_size(field_number: u32, value: i32, wt: WireType) -> (r: u32)
    requires
        0 < field_number <= FIELD_NUMBER_MAX,
        wt == WireType::WireTypeVarint || wt == WireType::WireTypeFixed64 || wt
            == WireType::WireTypeFixed32,
    ensures
        r == int32_field_size(field_number as nat, value, wt),
{
    let pb = match wt {
        WireType::WireTypeVarint => PbWireType::WireTypeVarint,
        WireType::WireTypeFixed64 => PbWireType::WireTypeFixed64,
        WireType::WireTypeLengthDelimited => PbWireType::WireTypeLengthDelimited,
        WireType::WireTypeStartGroup => PbWireType::WireTypeStartGroup,
        WireType::WireTypeEndGroup => PbWireType::WireTypeEndGroup,
        WireType::WireTypeFixed32 => PbWireType::WireTypeFixed32,
    };
    protobuf::rt::value_size(field_number, value, pb)
}

/// The bytes written to an output stream so far, flushed or still buffered.
pub uninterp spec fn stream_output(os: CodedOutputStream) -> Seq<u8>;

/// What an output stream writes into.
pub enum StreamTarget {
    /// A fixed slice with this many bytes left: writing past it panics.
    Slice(usize),
    /// A vector, which grows.
    Vector,
    /// A writer, which may fail.
    Writer,
}

/// What an output stream writes into.
pub uninterp spec fn stream_target(os: CodedOutputStream) -> StreamTarget;

/// The stream takes `n` more bytes.
pub open spec fn has_room(os: CodedOutputStream, n: nat) -> bool {
    match stream_target(os) {
        StreamTarget::Slice(k) => n <= k,
        _ => true,
    }
}

/// The target after `n` more bytes went into it.
pub open spec fn target_less(t: StreamTarget, n: nat) -> StreamTarget {
    match t {
        StreamTarget::Slice(k) => StreamTarget::Slice((k - n) as usize),
        _ => t,
    }
}

/// Writing to a slice with room, or to a vector, cannot fail.
pub open spec fn cannot_fail(os: CodedOutputStream) -> bool {
    !(stream_target(os) is Writer)
}

/// The varint encoding of `v`: seven bits per byte, least significant
/// first, the high bit set on every byte but the last.
pub open spec fn varint_bytes(v: nat) -> Seq<u8>
    decreases v,
{
    if v < 0x80 {
        seq![v as u8]
    } else {
        seq![((v % 0x80) + 0x80) as u8] + varint_bytes(v / 0x80)
    }
}

/// What follows the tag of a string field: the length of the UTF-8 bytes as
/// a 32-bit varint, then the bytes.
pub open spec fn string_payload(s: Seq<char>) -> Seq<u8> {
    varint_bytes(encode_utf8(s).len() % 0x1_0000_0000) + encode_utf8(s)
}

/// What follows the tag of an `int32` field: the value, sign-extended to 64
/// bits, as a varint.
pub open spec fn int32_payload(v: i32) -> Seq<u8> {
    varint_bytes(if v >= 0 { v as nat } else { (v + 0x1_0000_0000_0000_0000) as nat })
}

/// The bytes of a string field: the tag (wire type length-delimited), then
/// the payload.
pub open spec fn string_field_bytes(field_number: nat, s: Seq<char>) -> Seq<u8> {
    varint_bytes(field_number * 8 + 2) + string_payload(s)
}

/// The bytes of an `int32` field: the tag (wire type varint), then the payload.
pub open spec fn int32_field_bytes(field_number: nat, v: i32) -> Seq<u8> {
    varint_bytes(field_number * 8) + int32_payload(v)
}

/// Where an input stream reads from bytes in memory (`from_bytes`), the
/// bytes it has yet to give, up to its current limit; `None` where it reads
/// from a reader. Reading never changes what a stream reads from.
pub uninterp spec fn input_bytes(is: CodedInputStream) -> Option<Seq<u8>>;

/// How many bytes an input stream has consumed (`CodedInputStream::pos`).
/// Reads never move it back; a read that succeeds in reading a tag moves it
/// forward. (It would wrap past 2^64 - 1 bytes, which no stream reaches.)
pub uninterp spec fn input_pos(is: CodedInputStream) -> u64;

/// The number a tag carries for a wire type in its low three bits.
pub open spec fn wire_type_code(wt: WireType) -> nat {
    match wt {
        WireType::WireTypeVarint => 0,
        WireType::WireTypeFixed64 => 1,
        WireType::WireTypeLengthDelimited => 2,
        WireType::WireTypeStartGroup => 3,
        WireType::WireTypeEndGroup => 4,
        WireType::WireTypeFixed32 => 5,
    }
}

/// The bytes of the tag of field `field_number` under wire type `wt`.
pub open spec fn tag_bytes(field_number: nat, wt: WireType) -> Seq<u8> {
    varint_bytes(field_number * 8 + wire_type_code(wt))
}

/// `CodedInputStream::eof`: whether the stream has no byte left before its
/// limit. It consumes nothing. For a stream over bytes in memory it cannot
/// fail and answers whether those bytes are used up; a reader-backed stream
/// may have to ask its reader, which may fail.
#[verifier::external_body]
pub(crate) fn stream_eof(is: &mut CodedInputStream) -> (r: Result<bool, ProtobufError>)
    ensures
        (input_bytes(*final(is)) is Some) == (input_bytes(*old(is)) is Some),
        input_pos(*final(is)) == input_pos(*old(is)),
        input_bytes(*old(is)) matches Some(b) ==> (r matches Ok(e) && e == (b.len() == 0)) && input_bytes(*final(is)) == Some(b),
{
    is.eof()
}

/// `CodedInputStream::read_tag_unpack`: reads a tag as a varint and splits it
/// into field number and wire type. On success it consumed at least one byte,
/// and the field number is one protobuf allows (`Tag::new` refuses 0 and an
/// unknown wire type). Where the stream's bytes begin with the tag of field
/// `n` under `wt`, it gives `(n, wt)` and consumes that tag.
#[verifier::external_body]
pub(crate) fn read_tag(is: &mut CodedInputStream) -> (r: Result<(u32, WireType), ProtobufError>)
    ensures
        (input_bytes(*final(is)) is Some) == (input_bytes(*old(is)) is Some),
        input_pos(*final(is)) >= input_pos(*old(is)),
        r matches Ok(t) ==> 0 < t.0 <= FIELD_NUMBER_MAX && input_pos(*final(is)) > input_pos(*old(is)),
        input_bytes(*old(is)) matches Some(b) ==> forall|n: u32, wt: WireType| 0 < n <= FIELD_NUMBER_MAX && #[trigger] tag_bytes(n as nat, wt).is_prefix_of(b)
            ==> (r matches Ok(t) && t.0 == n && t.1 == wt) && input_bytes(*final(is)) == Some(b.skip(tag_bytes(n as nat, wt).len() as int)),
{
    let (n, w) = is.read_tag_unpack()?;
    let wt = match w {
        PbWireType::WireTypeVarint => WireType::WireTypeVarint,
        PbWireType::WireTypeFixed64 => WireType::WireTypeFixed64,
        PbWireType::WireTypeLengthDelimited => WireType::WireTypeLengthDelimited,
        PbWireType::WireTypeStartGroup => WireType::WireTypeStartGroup,
        PbWireType::WireTypeEndGroup => WireType::WireTypeEndGroup,
        PbWireType::WireTypeFixed32 => WireType::WireTypeFixed32,
    };
    Ok((n, wt))
}

/// A varint takes as many bytes as `varint64_size` counts.
pub proof fn lemma_varint_bytes_len(v: nat)
    requires
        v < 0x1_0000_0000_0000_0000,
    ensures
        varint_bytes(v).len() == varint64_size(v),
    decreases v,
{
    if v >= 0x80 {
        let q = v / 0x80;
        assert(v == q * 0x80 + v % 0x80);
        lemma_varint_bytes_len(q);
    }
}

/// A string field takes as many bytes as `string_field_size` counts, when
/// the string is shorter than 2^32 bytes.
pub proof fn lemma_string_field_bytes_len(field_number: nat, s: Seq<char>)
    requires
        0 < field_number <= FIELD_NUMBER_MAX,
        encode_utf8(s).len() < 0x1_0000_0000,
    ensures
        string_field_bytes(field_number, s).len() == string_field_size(field_number, s),
{
    lemma_varint_bytes_len(field_number * 8 + 2);
    lemma_varint_bytes_len(field_number * 8 + 1);
    lemma_varint_bytes_len(encode_utf8(s).len());
    assert(encode_utf8(s).len() % 0x1_0000_0000 == encode_utf8(s).len());
}

/// An `int32` field takes as many bytes as `int32_field_size` counts for the
/// varint wire type.
pub proof fn lemma_int32_field_bytes_len(field_number: nat, v: i32)
    requires
        0 < field_number <= FIELD_NUMBER_MAX,
    ensures
        int32_field_bytes(field_number, v).len() == int32_field_size(field_number, v, WireType::WireTypeVarint),
{
    lemma_varint_bytes_len(field_number * 8);
    lemma_varint_bytes_len(field_number * 8 + 1);
    if v >= 0 {
        lemma_varint_bytes_len(v as nat);
    } else {
        lemma_varint_bytes_len((v + 0x1_0000_0000_0000_0000) as nat);
    }
}

/// `CodedOutputStream::write_string`: on success the stream holds the field's
/// bytes after what it held. Writing into a slice with room or into a
/// vector succeeds; writing into a writer rests on the writer.
#[verifier::external_body]
pub(crate) fn write_string(os: &mut CodedOutputStream, field_number: u32, s: &str) -> (r: Result<(), ProtobufError>)
    requires
        0 < field_number <= FIELD_NUMBER_MAX,
        has_room(*old(os), string_field_bytes(field_number as nat, s@).len()),
    ensures
        r is Ok ==> stream_output(*final(os)) == stream_output(*old(os)) + string_field_bytes(field_number as nat, s@),
        cannot_fail(*old(os)) ==> r is Ok,
        r is Ok ==> stream_target(*final(os)) == target_less(stream_target(*old(os)), string_field_bytes(field_number as nat, s@).len()),
{
    os.write_string(field_number, s)
}

/// `CodedOutputStream::write_int32`: on success the stream holds the field's
/// bytes after what it held. Writing into a slice with room or into a
/// vector succeeds; writing into a writer rests on the writer.
#[verifier::external_body]
pub(crate) fn write_int32(os: &mut CodedOutputStream, field_number: u32, value: i32) -> (r: Result<(), ProtobufError>)
    requires
        0 < field_number <= FIELD_NUMBER_MAX,
        has_room(*old(os), int32_field_bytes(field_number as nat, value).len()),
    ensures
        r is Ok ==> stream_output(*final(os)) == stream_output(*old(os)) + int32_field_bytes(field_number as nat, value),
        cannot_fail(*old(os)) ==> r is Ok,
        r is Ok ==> stream_target(*final(os)) == target_less(stream_target(*old(os)), int32_field_bytes(field_number as nat, value).len()),
{
    os.write_int32(field_number, value)
}

/// `CodedOutputStream::write_unknown_fields`: on success the stream holds
/// what it held followed by the unknown fields, in the order their hash map
/// yields them (which bytes follow is not stated), as many as
/// `rt::unknown_fields_size` counts. Every field number must be allowed
/// (`write_tag` asserts it).
#[verifier::external_body]
pub(crate) fn write_unknown_fields(os: &mut CodedOutputStream, u: &UnknownFields) -> (r: Result<(), ProtobufError>)
    requires
        unknown_fields_writable(*u),
        has_room(*old(os), unknown_fields_size_of(*u)),
    ensures
        cannot_fail(*old(os)) ==> r is Ok,
        r is Ok ==> stream_output(*old(os)).is_prefix_of(stream_output(*final(os))),
        r is Ok ==> stream_output(*final(os)).len() == stream_output(*old(os)).len() + unknown_fields_size_of(*u),
        r is Ok ==> stream_target(*final(os)) == target_less(stream_target(*old(os)), unknown_fields_size_of(*u)),
{
    os.write_unknown_fields(u)
}

/// `CodedInputStream::read_int32`: reads a varint and keeps its low 32 bits.
/// Where the stream's bytes begin with the payload that `write_int32` writes
/// for `v`, it gives `v` and consumes that payload. What a reader-backed
/// stream gives is not stated.
#[verifier::external_body]
pub(crate) fn read_int32(is: &mut CodedInputStream) -> (r: Result<i32, ProtobufError>)
    ensures
        (input_bytes(*final(is)) is Some) == (input_bytes(*old(is)) is Some),
        input_pos(*final(is)) >= input_pos(*old(is)),
        input_bytes(*old(is)) matches Some(b) ==> forall|v: i32| #[trigger] int32_payload(v).is_prefix_of(b)
            ==> (r matches Ok(x) && x == v) && input_bytes(*final(is)) == Some(b.skip(int32_payload(v).len() as int)),
{
    is.read_int32()
}

/// `rt::read_singular_proto3_string_into`: with a wire type other than
/// length-delimited it fails and leaves the target alone; otherwise it reads
/// a 32-bit length and that many UTF-8 bytes into the target. Where the
/// stream's bytes begin with the payload that `write_string` writes for `s`
/// (fewer than 2^32 bytes), the target becomes `s` and the payload is
/// consumed. What a reader-backed stream gives is not stated.
#[verifier::external_body]
pub(crate) fn read_singular_proto3_string_into(wt: WireType, is: &mut CodedInputStream, target: &mut String) -> (r: Result<(), ProtobufError>)
    ensures
        (input_bytes(*final(is)) is Some) == (input_bytes(*old(is)) is Some),
        input_pos(*final(is)) >= input_pos(*old(is)),
        wt != WireType::WireTypeLengthDelimited ==> (r is Err) && *final(target) == *old(target),
        wt == WireType::WireTypeLengthDelimited ==> (input_bytes(*old(is)) matches Some(b) ==> forall|s: Seq<char>|
            encode_utf8(s).len() < 0x1_0000_0000 && #[trigger] string_payload(s).is_prefix_of(b)
            ==> (r is Ok) && final(target)@ == s && input_bytes(*final(is)) == Some(b.skip(string_payload(s).len() as int))),
{
    let pb = match wt {
        WireType::WireTypeVarint => PbWireType::WireTypeVarint,
        WireType::WireTypeFixed64 => PbWireType::WireTypeFixed64,
        WireType::WireTypeLengthDelimited => PbWireType::WireTypeLengthDelimited,
        WireType::WireTypeStartGroup => PbWireType::WireTypeStartGroup,
        WireType::WireTypeEndGroup => PbWireType::WireTypeEndGroup,
        WireType::WireTypeFixed32 => PbWireType::WireTypeFixed32,
    };
    protobuf::rt::read_singular_proto3_string_into(pb, is, target)
}

/// `rt::read_repeated_string_into`: with a wire type other than
/// length-delimited it fails and leaves the target alone; otherwise it appends
/// one string, read as `read_singular_proto3_string_into` reads it, and keeps
/// the earlier ones. Where the stream's bytes begin with the payload that
/// `write_string` writes for `s` (fewer than 2^32 bytes), the string appended
/// is `s` and the payload is consumed. What a reader-backed stream gives is
/// not stated.
#[verifier::external_body]
pub(crate) fn read_repeated_string_into(wt: WireType, is: &mut CodedInputStream, target: &mut RepeatedField<String>) -> (r: Result<(), ProtobufError>)
    requires
        repeated_strings(*old(target)).len() < usize::MAX,
    ensures
        (input_bytes(*final(is)) is Some) == (input_bytes(*old(is)) is Some),
        input_pos(*final(is)) >= input_pos(*old(is)),
        repeated_strings(*final(target)).len() <= isize::MAX,
        wt != WireType::WireTypeLengthDelimited ==> (r is Err) && *final(target) == *old(target),
        wt == WireType::WireTypeLengthDelimited ==> repeated_strings(*final(target)).len() == repeated_strings(*old(target)).len() + 1
            && repeated_strings(*final(target)).take(repeated_strings(*old(target)).len() as int) == repeated_strings(*old(target)),
        wt == WireType::WireTypeLengthDelimited ==> (input_bytes(*old(is)) matches Some(b) ==> forall|s: Seq<char>|
            encode_utf8(s).len() < 0x1_0000_0000 && #[trigger] string_payload(s).is_prefix_of(b)
            ==> (r is Ok) && repeated_strings(*final(target)) == repeated_strings(*old(target)).push(s) && input_bytes(*final(is)) == Some(b.skip(string_payload(s).len() as int))),
{
    let pb = match wt {
        WireType::WireTypeVarint => PbWireType::WireTypeVarint,
        WireType::WireTypeFixed64 => PbWireType::WireTypeFixed64,
        WireType::WireTypeLengthDelimited => PbWireType::WireTypeLengthDelimited,
        WireType::WireTypeStartGroup => PbWireType::WireTypeStartGroup,
        WireType::WireTypeEndGroup => PbWireType::WireTypeEndGroup,
        WireType::WireTypeFixed32 => PbWireType::WireTypeFixed32,
    };
    protobuf::rt::read_repeated_string_into(pb, is, target)
}

/// `rt::read_unknown_or_skip_group`: a group is skipped and the unknown fields
/// left alone; any other wire type reads one value and, on success, files it
/// under `field_number`. On failure nothing is filed. The value filed is not
/// stated (it depends on the stream), but its encoded size is bounded: the
/// unknown fields grow by the tag's size and at most the bytes consumed
/// (the value, re-encoded, is never longer than it was read). Where a varint
/// is expected and the stream's bytes begin with the varint of some `v`
/// below 2^64, the read succeeds and consumes exactly that varint; where a
/// length-delimited value is expected and they begin with a length below
/// 2^32 and that many bytes, it succeeds and consumes exactly those.
#[verifier::external_body]
pub(crate) fn read_unknown_or_skip_group(field_number: u32, wt: WireType, is: &mut CodedInputStream, unknown_fields: &mut UnknownFields) -> (r: Result<(), ProtobufError>)
    ensures
        (input_bytes(*final(is)) is Some) == (input_bytes(*old(is)) is Some),
        input_pos(*final(is)) >= input_pos(*old(is)),
        wt == WireType::WireTypeStartGroup ==> *final(unknown_fields) == *old(unknown_fields),
        r is Err ==> *final(unknown_fields) == *old(unknown_fields),
        r is Ok && wt != WireType::WireTypeStartGroup ==> unknown_field_numbers(*final(unknown_fields)) == unknown_field_numbers(*old(unknown_fields)).insert(field_number),
        wt == WireType::WireTypeVarint ==> (input_bytes(*old(is)) matches Some(b) ==> forall|v: nat| v < 0x1_0000_0000_0000_0000 && #[trigger] varint_bytes(v).is_prefix_of(b)
            ==> (r is Ok) && input_bytes(*final(is)) == Some(b.skip(varint_bytes(v).len() as int))),
        wt == WireType::WireTypeLengthDelimited ==> (input_bytes(*old(is)) matches Some(b) ==> forall|bs: Seq<u8>| bs.len() < 0x1_0000_0000 && #[trigger] (varint_bytes(bs.len()) + bs).is_prefix_of(b)
            ==> (r is Ok) && input_bytes(*final(is)) == Some(b.skip((varint_bytes(bs.len()).len() + bs.len()) as int))),
        r is Ok && wt != WireType::WireTypeStartGroup ==> unknown_fields_size_of(*old(unknown_fields)) + tag_size(field_number as nat) <= unknown_fields_size_of(*final(unknown_fields))
            <= unknown_fields_size_of(*old(unknown_fields)) + tag_size(field_number as nat) + (input_pos(*final(is)) - input_pos(*old(is))),
{
    let pb = match wt {
        WireType::WireTypeVarint => PbWireType::WireTypeVarint,
        WireType::WireTypeFixed64 => PbWireType::WireTypeFixed64,
        WireType::WireTypeLengthDelimited => PbWireType::WireTypeLengthDelimited,
        WireType::WireTypeStartGroup => PbWireType::WireTypeStartGroup,
        WireType::WireTypeEndGroup => PbWireType::WireTypeEndGroup,
        WireType::WireTypeFixed32 => PbWireType::WireTypeFixed32,
    };
    protobuf::rt::read_unknown_or_skip_group(field_number, pb, is, unknown_fields)
}

} // verus!
