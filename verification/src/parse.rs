//! The numeric codec: text blobs to sequences of numbers.

use crate::error::{ErrorKind, Failure, ParseError};
use crate::single::{
    half_to_single, index_of_single, lemma_huge_is_infinite, nearest_single, widen, Single,
};
use crate::text::{
    chars_of, cut, digit, exceeds, is_digit, is_numeral, is_space, lemma_exceeds, numeral_value,
    read_numeral, same_text, space, spans_within, split, stands_for, tokens,
};
use vstd::prelude::*;

verus! {

/// The declared type of the elements of a stream.
#[derive(Debug, Clone, Copy, PartialEq, Eq, Structural)]
pub enum DataType {
    /// One unsigned byte.
    UChar,
    /// Two bytes, an unsigned integer.
    UShort,
    /// Two bytes, a half-precision number.
    Half,
    /// Four bytes, a single-precision number.
    Float,
    /// Any other tag.
    Unknown,
}

impl DataType {
    /// The data type that a tag names; tags are matched exactly.
    pub open spec fn of_tag(tag: Seq<char>) -> DataType {
        if tag == "uchar"@ {
            DataType::UChar
        } else if tag == "ushort"@ {
            DataType::UShort
        } else if tag == "half"@ {
            DataType::Half
        } else if tag == "float"@ {
            DataType::Float
        } else {
            DataType::Unknown
        }
    }

    /// The number of bytes that one element takes; none for an unknown type.
    pub open spec fn stride(self) -> nat {
        match self {
            DataType::UChar => 1,
            DataType::UShort => 2,
            DataType::Half => 2,
            DataType::Float => 4,
            DataType::Unknown => 0,
        }
    }

    /// The data type that `tag` names.
    pub fn from_tag(tag: &str) -> (t: DataType)
        ensures
            t == Self::of_tag(tag@),
    {
        if same_text(tag, "uchar") {
            DataType::UChar
        } else if same_text(tag, "ushort") {
            DataType::UShort
        } else if same_text(tag, "half") {
            DataType::Half
        } else if same_text(tag, "float") {
            DataType::Float
        } else {
            DataType::Unknown
        }
    }

    /// The number of bytes that one element takes.
    pub fn width(self) -> (n: usize)
        ensures
            n == self.stride(),
    {
        match self {
            DataType::UChar => 1,
            DataType::UShort => 2,
            DataType::Half => 2,
            DataType::Float => 4,
            DataType::Unknown => 0,
        }
    }
}

/// How the numbers of a blob are written.
#[derive(Debug, Clone, Copy, PartialEq, Eq, Structural)]
pub enum Encoding {
    /// Decimal literals.
    Decimal,
    /// Bytes as hexadecimal tokens.
    Hex,
}

/// A blob is decimal when it holds nothing but ASCII digits and white space.
pub open spec fn is_decimal(data: Seq<char>) -> bool {
    forall|i: int| 0 <= i < data.len() ==> is_digit(#[trigger] data[i]) || is_space(data[i])
}

/// The encoding of a blob: decimal when it holds nothing but digits and white
/// space, hexadecimal as soon as it holds any other character.
pub open spec fn encoding_of(data: Seq<char>) -> Encoding {
    if is_decimal(data) {
        Encoding::Decimal
    } else {
        Encoding::Hex
    }
}

fn detect(data: &Vec<char>) -> (e: Encoding)
    ensures
        e == encoding_of(data@),
        e == Encoding::Hex <==> exists|i: int|
            0 <= i < data@.len() && !is_digit(#[trigger] data@[i]) && !is_space(data@[i]),
{
    let mut i: usize = 0;
    while i < data.len()
        invariant
            i <= data.len(),
            forall|k: int| 0 <= k < i ==> is_digit(#[trigger] data@[k]) || is_space(data@[k]),
        decreases data.len() - i,
    {
        if !digit(data[i]) && !space(data[i]) {
            return Encoding::Hex;
        }
        i += 1;
    }
    Encoding::Decimal
}

/// Detects how the numbers of `data` are written. The two encodings exclude
/// each other and every blob has one: decimal exactly when every character is
/// an ASCII digit or white space, hexadecimal exactly when some character is
/// neither.
pub fn detect_encoding(data: &str) -> (e: Encoding)
    ensures
        e == encoding_of(data@),
        e == Encoding::Decimal <==> forall|i: int|
            0 <= i < data@.len() ==> is_digit(#[trigger] data@[i]) || is_space(data@[i]),
        e == Encoding::Hex <==> exists|i: int|
            0 <= i < data@.len() && !is_digit(#[trigger] data@[i]) && !is_space(data@[i]),
        e == Encoding::Decimal || e == Encoding::Hex,
        !(e == Encoding::Decimal && e == Encoding::Hex),
{
    let chars = chars_of(data);
    detect(&chars)
}

/// A token without its sign: one leading `+` is dropped.
pub open spec fn unsigned(t: Seq<char>) -> Seq<char> {
    if t.len() > 0 && t[0] == '+' {
        t.skip(1)
    } else {
        t
    }
}

/// Why a token is no unsigned integer of the given radix up to `limit`: it is
/// empty; or its digits, read from the left, exceed the limit before anything
/// else is met; or it holds something that is no digit, be it a second sign.
pub open spec fn integer_failure(t: Seq<char>, radix: nat, limit: nat) -> Seq<char> {
    if t.len() == 0 {
        "cannot parse integer from empty string"@
    } else if exceeds(unsigned(t), radix, limit) {
        "number too large to fit in target type"@
    } else {
        "invalid digit found in string"@
    }
}

/// The unsigned integer up to `limit` that a token denotes in the given radix,
/// an optional `+` and then one or more digits, or why it denotes none.
pub open spec fn integer_of(t: Seq<char>, radix: nat, limit: nat) -> Result<nat, Seq<char>> {
    let d = unsigned(t);
    if is_numeral(d, radix) && numeral_value(d, radix) <= limit {
        Ok(numeral_value(d, radix))
    } else {
        Err(integer_failure(t, radix, limit))
    }
}

/// Why a token is no decimal numeral of a single-precision number.
pub open spec fn single_failure(t: Seq<char>) -> Seq<char> {
    if t.len() == 0 {
        "cannot parse float from empty string"@
    } else {
        "invalid float literal"@
    }
}

/// A number type that the codec can produce.
pub trait Scalar: Sized {
    /// The number that stands for an unsigned byte.
    spec fn of_byte(b: u8) -> Self;

    /// The number that stands for an unsigned 16-bit integer.
    spec fn of_short(v: u16) -> Self;

    /// The number that stands for a single-precision number, if there is one.
    spec fn of_single(x: Single) -> Option<Self>;

    /// The number that a decimal token denotes, or why it denotes none.
    spec fn of_decimal(t: Seq<char>) -> Result<Self, Seq<char>>;

    /// Converts an unsigned byte.
    fn from_byte(b: u8) -> (r: Self)
        ensures
            r == Self::of_byte(b),
    ;

    /// Converts an unsigned 16-bit integer.
    fn from_short(v: u16) -> (r: Self)
        ensures
            r == Self::of_short(v),
    ;

    /// Converts a single-precision number, where the type can hold it.
    fn from_single(x: Single) -> (r: Option<Self>)
        ensures
            r == Self::of_single(x),
    ;

    /// Reads the characters of `t` from position `from` up to position `to` as
    /// one decimal token.
    fn from_decimal(t: &Vec<char>, from: usize, to: usize) -> (r: Result<Self, &'static str>)
        requires
            from <= to <= t.len(),
        ensures
            match Self::of_decimal(t@.subrange(from as int, to as int)) {
                Ok(x) => r is Ok && r->Ok_0 == x,
                Err(why) => r is Err && r->Err_0@ == why,
            },
    ;
}

/// The position behind the sign of the token that lies from `from` up to `to`.
fn skip_sign(t: &Vec<char>, from: usize, to: usize) -> (start: usize)
    requires
        from <= to <= t.len(),
    ensures
        from <= start <= to,
        t@.subrange(start as int, to as int) == unsigned(t@.subrange(from as int, to as int)),
{
    let ghost token = t@.subrange(from as int, to as int);
    if from < to && t[from] == '+' {
        assert(token.skip(1) =~= t@.subrange(from + 1, to as int));
        from + 1
    } else {
        from
    }
}

/// Reads the characters of `t` from position `from` up to position `to` as an
/// unsigned integer of the given radix that is no larger than `limit`.
fn read_integer(t: &Vec<char>, from: usize, to: usize, radix: u8, limit: u128) -> (r: Result<
    u128,
    &'static str,
>)
    requires
        from <= to <= t.len(),
        1 <= radix <= 16,
    ensures
        match integer_of(t@.subrange(from as int, to as int), radix as nat, limit as nat) {
            Ok(n) => r == Ok::<u128, &'static str>(n as u128),
            Err(why) => r is Err && r->Err_0@ == why,
        },
{
    let start = skip_sign(t, from, to);
    let (end, value) = read_numeral(t, start, to, radix);
    proof {
        lemma_exceeds(
            t@.subrange(start as int, to as int),
            radix as nat,
            limit as nat,
            end - start,
        );
        if start < to && end == to {
            assert(t@.subrange(start as int, to as int).take(end - start) =~= t@.subrange(
                start as int,
                to as int,
            ));
        }
    }
    let too_large = match value {
        Some(v) => v > limit,
        None => true,
    };
    if from == to {
        Err("cannot parse integer from empty string")
    } else if too_large {
        Err("number too large to fit in target type")
    } else if start < to && end == to {
        Ok(value.unwrap())
    } else {
        Err("invalid digit found in string")
    }
}

impl Scalar for u32 {
    open spec fn of_byte(b: u8) -> u32 {
        b as u32
    }

    open spec fn of_short(v: u16) -> u32 {
        v as u32
    }

    /// A single-precision number converts when it is a non-negative integer
    /// below `2^32`.
    open spec fn of_single(x: Single) -> Option<u32> {
        index_of_single(x.bits)
    }

    /// An optional `+` and then one or more digits, of a value below `2^32`.
    open spec fn of_decimal(t: Seq<char>) -> Result<u32, Seq<char>> {
        match integer_of(t, 10, 0xffff_ffff) {
            Ok(n) => Ok(n as u32),
            Err(why) => Err(why),
        }
    }

    fn from_byte(b: u8) -> (r: u32) {
        b as u32
    }

    fn from_short(v: u16) -> (r: u32) {
        v as u32
    }

    fn from_single(x: Single) -> (r: Option<u32>) {
        x.to_index()
    }

    fn from_decimal(t: &Vec<char>, from: usize, to: usize) -> (r: Result<u32, &'static str>) {
        match read_integer(t, from, to, 10, 0xffff_ffff) {
            Ok(v) => Ok(v as u32),
            Err(why) => Err(why),
        }
    }
}

impl Scalar for Single {
    open spec fn of_byte(b: u8) -> Single {
        Single { bits: nearest_single(b as nat) }
    }

    open spec fn of_short(v: u16) -> Single {
        Single { bits: nearest_single(v as nat) }
    }

    open spec fn of_single(x: Single) -> Option<Single> {
        Some(x)
    }

    /// An optional `+` and then one or more digits: the nearest
    /// single-precision number, and infinity beyond the finite range.
    open spec fn of_decimal(t: Seq<char>) -> Result<Single, Seq<char>> {
        let d = unsigned(t);
        if is_numeral(d, 10) {
            Ok(Single { bits: nearest_single(numeral_value(d, 10)) })
        } else {
            Err(single_failure(t))
        }
    }

    fn from_byte(b: u8) -> (r: Single) {
        Single::from_integer(b as u128)
    }

    fn from_short(v: u16) -> (r: Single) {
        Single::from_integer(v as u128)
    }

    fn from_single(x: Single) -> (r: Option<Single>) {
        Some(x)
    }

    fn from_decimal(t: &Vec<char>, from: usize, to: usize) -> (r: Result<Single, &'static str>) {
        let start = skip_sign(t, from, to);
        let (end, value) = read_numeral(t, start, to, 10);
        if start < to && end == to {
            let ghost d = t@.subrange(start as int, to as int);
            assert(d.take(end - start) =~= d);
            match value {
                Some(v) => Ok(Single::from_integer(v)),
                None => {
                    proof {
                        lemma_huge_is_infinite(numeral_value(d, 10));
                    }
                    Ok(Single::infinity())
                },
            }
        } else if from == to {
            Err("cannot parse float from empty string")
        } else {
            Err("invalid float literal")
        }
    }
}

/// The unsigned 16-bit integer with the given bytes, the high one first.
pub open spec fn short_of(hi: u8, lo: u8) -> u16 {
    (hi * 0x100 + lo) as u16
}

/// The unsigned 32-bit integer with the given bytes, the highest first.
pub open spec fn word_of(b0: u8, b1: u8, b2: u8, b3: u8) -> u32 {
    (b0 * 0x1000000 + b1 * 0x10000 + b2 * 0x100 + b3) as u32
}

/// The `width` low bytes of an unsigned integer, the highest of them first.
pub open spec fn big_endian(v: nat, width: nat) -> Seq<u8>
    decreases width,
{
    if width == 0 {
        Seq::empty()
    } else {
        big_endian(v / 0x100, (width - 1) as nat).push((v % 0x100) as u8)
    }
}

/// The bytes of a stream of unsigned integers of `width` bytes each, every
/// integer with its highest byte first.
pub open spec fn bytes_of(values: Seq<nat>, width: nat) -> Seq<u8> {
    Seq::new(
        values.len() * width,
        |k: int| big_endian(values[k / width as int], width)[k % width as int],
    )
}

/// Decoding unsigned bytes or shorts and writing the numbers back as bytes
/// gives the bytes that were decoded.
pub proof fn lemma_integers_round_trip(t: DataType, bytes: Seq<u8>)
    requires
        t == DataType::UChar || t == DataType::UShort,
        bytes.len() % t.stride() == 0,
    ensures
        elements::<u32>(t, bytes) is Ok,
        bytes_of(elements::<u32>(t, bytes)->Ok_0.map(|i: int, v: u32| v as nat), t.stride())
            == bytes,
{
    reveal_with_fuel(big_endian, 3);
    let w = t.stride();
    let values = elements::<u32>(t, bytes)->Ok_0.map(|i: int, v: u32| v as nat);
    let back = bytes_of(values, w);
    assert(values.len() * w == bytes.len()) by {
        assert(values.len() == bytes.len() / w);
    }
    assert forall|k: int| 0 <= k < bytes.len() implies back[k] == bytes[k] by {
        if t == DataType::UChar {
            assert(element::<u32>(t, bytes, k) == Some(bytes[k] as u32));
            assert(big_endian(values[k], 1) =~= seq![bytes[k]]);
        } else {
            let i = k / 2;
            assert(element::<u32>(t, bytes, i) == Some(
                short_of(bytes[2 * i], bytes[2 * i + 1]) as u32,
            ));
            let hi = bytes[2 * i];
            let lo = bytes[2 * i + 1];
            assert(values[i] == hi * 0x100 + lo);
            assert(big_endian(values[i], 2) =~= seq![hi, lo]);
        }
    }
    assert(back =~= bytes);
}

/// The four bytes of a 32-bit integer are the bytes it was made of.
proof fn lemma_big_endian_word(b0: u8, b1: u8, b2: u8, b3: u8)
    ensures
        big_endian(word_of(b0, b1, b2, b3) as nat, 4) == seq![b0, b1, b2, b3],
{
    let v = (b0 * 0x1000000 + b1 * 0x10000 + b2 * 0x100 + b3) as nat;
    let v1 = (b0 * 0x10000 + b1 * 0x100 + b2) as nat;
    let v2 = (b0 * 0x100 + b1) as nat;
    let v3 = b0 as nat;
    assert(v / 0x100 == v1 && v % 0x100 == b3);
    assert(v1 / 0x100 == v2 && v1 % 0x100 == b2);
    assert(v2 / 0x100 == v3 && v2 % 0x100 == b1);
    assert(v3 / 0x100 == 0 && v3 % 0x100 == b0);
    assert(big_endian(0, 0) =~= Seq::<u8>::empty());
    assert(big_endian(v3, 1) =~= seq![b0]);
    assert(big_endian(v2, 2) =~= seq![b0, b1]);
    assert(big_endian(v1, 3) =~= seq![b0, b1, b2]);
    assert(big_endian(v, 4) =~= seq![b0, b1, b2, b3]);
}

/// Decoding single-precision numbers and writing their bit patterns back as
/// bytes gives the bytes that were decoded.
pub proof fn lemma_singles_round_trip(bytes: Seq<u8>)
    requires
        bytes.len() % 4 == 0,
    ensures
        elements::<Single>(DataType::Float, bytes) is Ok,
        bytes_of(
            elements::<Single>(DataType::Float, bytes)->Ok_0.map(|i: int, x: Single| x.bits as nat),
            4,
        ) == bytes,
{
    let t = DataType::Float;
    let values = elements::<Single>(t, bytes)->Ok_0.map(|i: int, x: Single| x.bits as nat);
    let back = bytes_of(values, 4);
    assert forall|k: int| 0 <= k < bytes.len() implies back[k] == bytes[k] by {
        let i = k / 4;
        assert(element::<Single>(t, bytes, i) == Some(
            Single {
                bits: word_of(bytes[4 * i], bytes[4 * i + 1], bytes[4 * i + 2], bytes[4 * i + 3]),
            },
        ));
        let b0 = bytes[4 * i];
        let b1 = bytes[4 * i + 1];
        let b2 = bytes[4 * i + 2];
        let b3 = bytes[4 * i + 3];
        assert(values[i] == word_of(b0, b1, b2, b3));
        lemma_big_endian_word(b0, b1, b2, b3);
    }
    assert(back =~= bytes);
}

/// The byte that a hexadecimal token denotes: an optional `+` and then one or
/// more hexadecimal digits, in either case, whose value is at most 255.
pub open spec fn hex_byte(t: Seq<char>) -> Option<u8> {
    match integer_of(t, 16, 0xff) {
        Ok(n) => Some(n as u8),
        Err(_) => None,
    }
}

/// The failure of an element data-type tag that names no supported type.
pub open spec fn unknown_type(tag: Seq<char>) -> Failure {
    (ErrorKind::UnsupportedType, "Unknown data type "@ + tag)
}

/// The failure of a hexadecimal token that denotes no byte.
pub open spec fn bad_hex(t: Seq<char>) -> Failure {
    (ErrorKind::Decode, "Failed to decode hex: "@ + integer_failure(t, 16, 0xff))
}

/// The failure of a decimal token that denotes no number of the target type.
pub open spec fn bad_decimal(why: Seq<char>) -> Failure {
    (ErrorKind::Decode, "Failed to decode decimal data: "@ + why)
}

/// The failure of a byte stream that ends inside an element.
pub open spec fn incomplete(t: DataType) -> Failure {
    (
        ErrorKind::Incomplete,
        if t == DataType::Float {
            "Invalid length for f32"@
        } else {
            "Invalid length for u16"@
        },
    )
}

/// The failure of an element that the target type cannot hold.
pub open spec fn unconvertible(t: DataType) -> Failure {
    (
        ErrorKind::Conversion,
        if t == DataType::Half {
            "Failed to convert half to target type"@
        } else {
            "Failed to convert f32 to target type"@
        },
    )
}

/// The members of a list where each is one, and else the first failure in it.
pub open spec fn collected<A>(items: Seq<Result<A, Failure>>) -> Result<Seq<A>, Failure>
    decreases items.len(),
{
    if items.len() == 0 {
        Ok(Seq::empty())
    } else {
        match collected(items.drop_last()) {
            Err(f) => Err(f),
            Ok(front) => match items.last() {
                Err(f) => Err(f),
                Ok(a) => Ok(front.push(a)),
            },
        }
    }
}

/// Once an item has failed, the items behind it change nothing.
pub proof fn lemma_collected_failure<A>(items: Seq<Result<A, Failure>>, i: int)
    requires
        0 <= i <= items.len(),
        collected(items.take(i)) is Err,
    ensures
        collected(items) == collected(items.take(i)),
    decreases items.len() - i,
{
    if i == items.len() {
        assert(items.take(i) =~= items);
    } else {
        assert(items.take(i + 1).drop_last() =~= items.take(i));
        lemma_collected_failure(items, i + 1);
    }
}

/// What a hexadecimal token gives: its byte, or its failure.
pub open spec fn hex_item(t: Seq<char>) -> Result<u8, Failure> {
    match hex_byte(t) {
        Some(b) => Ok(b),
        None => Err(bad_hex(t)),
    }
}

/// The bytes that a list of hexadecimal tokens denotes, or the failure of the
/// first token that denotes none.
pub open spec fn hex_bytes(toks: Seq<Seq<char>>) -> Result<Seq<u8>, Failure> {
    collected(Seq::new(toks.len(), |i: int| hex_item(toks[i])))
}

/// Element `i` of a byte stream of the given type: bytes are taken in
/// big-endian order, and a half-precision number is widened.
pub open spec fn element<T: Scalar>(t: DataType, bytes: Seq<u8>, i: int) -> Option<T> {
    match t {
        DataType::UChar => Some(T::of_byte(bytes[i])),
        DataType::UShort => Some(T::of_short(short_of(bytes[2 * i], bytes[2 * i + 1]))),
        DataType::Half => T::of_single(
            Single { bits: widen(short_of(bytes[2 * i], bytes[2 * i + 1])) },
        ),
        DataType::Float => T::of_single(
            Single {
                bits: word_of(
                    bytes[4 * i],
                    bytes[4 * i + 1],
                    bytes[4 * i + 2],
                    bytes[4 * i + 3],
                ),
            },
        ),
        DataType::Unknown => None,
    }
}

/// The elements of a byte stream of the given type. An unknown type is
/// unsupported; an element that the target type cannot hold is a conversion
/// failure; a stream that ends inside an element is incomplete.
pub open spec fn elements<T: Scalar>(t: DataType, bytes: Seq<u8>) -> Result<Seq<T>, Failure> {
    if t == DataType::Unknown {
        Err(unknown_type(Seq::empty()))
    } else {
        let n = bytes.len() / t.stride();
        if exists|i: int| 0 <= i < n && (#[trigger] element::<T>(t, bytes, i)) is None {
            Err(unconvertible(t))
        } else if bytes.len() % t.stride() != 0 {
            Err(incomplete(t))
        } else {
            Ok(Seq::new(n, |i: int| element::<T>(t, bytes, i)->0))
        }
    }
}

/// What a hexadecimal blob decodes to under the given data-type tag.
pub open spec fn hex_reading<T: Scalar>(data: Seq<char>, tag: Seq<char>) -> Result<
    Seq<T>,
    Failure,
> {
    if DataType::of_tag(tag) == DataType::Unknown {
        Err(unknown_type(tag))
    } else {
        match hex_bytes(tokens(data)) {
            Err(f) => Err(f),
            Ok(bytes) => elements::<T>(DataType::of_tag(tag), bytes),
        }
    }
}

/// What a decimal token gives in the target type: the number that it denotes,
/// or its failure. The token is an optional `+` and then one or more ASCII
/// digits, whose value the type can hold.
pub open spec fn decimal_element<T: Scalar>(t: Seq<char>) -> Result<T, Failure> {
    match T::of_decimal(t) {
        Ok(x) => Ok(x),
        Err(why) => Err(bad_decimal(why)),
    }
}

/// What a decimal blob decodes to: the numbers of its tokens, or the failure of
/// the first token that denotes none.
pub open spec fn decimal_reading<T: Scalar>(data: Seq<char>) -> Result<Seq<T>, Failure> {
    collected(Seq::new(tokens(data).len(), |i: int| decimal_element::<T>(tokens(data)[i])))
}

/// What a blob decodes to: as decimal literals where it holds only digits and
/// white space, whatever the tag; else as hexadecimal bytes, grouped by the tag.
pub open spec fn reading<T: Scalar>(data: Seq<char>, tag: Seq<char>) -> Result<Seq<T>, Failure> {
    match encoding_of(data) {
        Encoding::Decimal => decimal_reading::<T>(data),
        Encoding::Hex => hex_reading::<T>(data, tag),
    }
}

/// Whether an outcome is the one that was specified: the same elements, or the
/// same failure, by kind and by cause.
pub open spec fn yields<T>(r: Result<Vec<T>, ParseError>, s: Result<Seq<T>, Failure>) -> bool {
    match s {
        Ok(v) => r is Ok && r->Ok_0@ == v,
        Err(f) => r is Err && r->Err_0@ == f,
    }
}

fn short(hi: u8, lo: u8) -> (v: u16)
    ensures
        v == short_of(hi, lo),
{
    hi as u16 * 0x100 + lo as u16
}

fn word(b0: u8, b1: u8, b2: u8, b3: u8) -> (v: u32)
    ensures
        v == word_of(b0, b1, b2, b3),
{
    b0 as u32 * 0x1000000 + b1 as u32 * 0x10000 + b2 as u32 * 0x100 + b3 as u32
}

/// Reads one hexadecimal token as a byte.
pub fn parse_hex_byte(t: &Vec<char>) -> (r: Result<u8, ParseError>)
    ensures
        match hex_item(t@) {
            Ok(b) => r is Ok && r->Ok_0 == b,
            Err(f) => r is Err && r->Err_0@ == f,
        },
{
    assert(t@.subrange(0, t@.len() as int) =~= t@);
    match read_integer(t, 0, t.len(), 16, 0xff) {
        Ok(v) => Ok(v as u8),
        Err(why) => Err(ParseError::with_detail(ErrorKind::Decode, "Failed to decode hex: ", why)),
    }
}

fn incomplete_error(t: DataType) -> (e: ParseError)
    ensures
        e@ == incomplete(t),
{
    match t {
        DataType::Float => ParseError::of_kind(ErrorKind::Incomplete, "Invalid length for f32"),
        _ => ParseError::of_kind(ErrorKind::Incomplete, "Invalid length for u16"),
    }
}

fn unconvertible_error(t: DataType) -> (e: ParseError)
    ensures
        e@ == unconvertible(t),
{
    match t {
        DataType::Half => ParseError::of_kind(
            ErrorKind::Conversion,
            "Failed to convert half to target type",
        ),
        _ => ParseError::of_kind(ErrorKind::Conversion, "Failed to convert f32 to target type"),
    }
}

fn unknown_type_error(tag: &str) -> (e: ParseError)
    ensures
        e@ == unknown_type(tag@),
{
    ParseError::with_detail(ErrorKind::UnsupportedType, "Unknown data type ", tag)
}

/// Groups a byte stream into elements of the given type and converts each.
pub fn decode_elements<T: Scalar>(t: DataType, bytes: &Vec<u8>) -> (r: Result<Vec<T>, ParseError>)
    ensures
        yields(r, elements::<T>(t, bytes@)),
{
    if t == DataType::Unknown {
        proof {
            reveal_strlit("");
            assert(""@ =~= Seq::<char>::empty());
        }
        return Err(unknown_type_error(""));
    }
    let w = t.width();
    let n = bytes.len() / w;
    let mut out: Vec<T> = Vec::new();
    let mut i: usize = 0;
    while i < n
        invariant
            i <= n,
            t != DataType::Unknown,
            w == t.stride(),
            n == bytes.len() / w,
            out@.len() == i,
            forall|k: int| 0 <= k < i ==> (#[trigger] element::<T>(t, bytes@, k)) == Some(out@[k]),
        decreases n - i,
    {
        assert(i * w + w <= bytes.len()) by (nonlinear_arith)
            requires
                i < n,
                n == bytes.len() / w,
                w > 0,
        ;
        let x: Option<T> = match t {
            DataType::UChar => Some(T::from_byte(bytes[i])),
            DataType::UShort => Some(T::from_short(short(bytes[2 * i], bytes[2 * i + 1]))),
            DataType::Half => T::from_single(
                half_to_single(short(bytes[2 * i], bytes[2 * i + 1])),
            ),
            DataType::Float => T::from_single(
                Single {
                    bits: word(bytes[4 * i], bytes[4 * i + 1], bytes[4 * i + 2], bytes[4 * i + 3]),
                },
            ),
            DataType::Unknown => None,
        };
        assert(x == element::<T>(t, bytes@, i as int));
        match x {
            Some(v) => {
                out.push(v);
            },
            None => {
                return Err(unconvertible_error(t));
            },
        }
        i += 1;
    }
    if bytes.len() % w != 0 {
        return Err(incomplete_error(t));
    }
    assert(out@ =~= Seq::new(n as nat, |i: int| element::<T>(t, bytes@, i)->0));
    Ok(out)
}

fn read_hex_chars<T: Scalar>(data: &Vec<char>, data_type: &str) -> (r: Result<Vec<T>, ParseError>)
    ensures
        yields(r, hex_reading::<T>(data@, data_type@)),
{
    let t = DataType::from_tag(data_type);
    if t == DataType::Unknown {
        return Err(unknown_type_error(data_type));
    }
    let toks = split(data);
    let ghost items = Seq::new(tokens(data@).len(), |k: int| hex_item(tokens(data@)[k]));
    let mut bytes: Vec<u8> = Vec::new();
    let mut i: usize = 0;
    assert(cut(data@, toks@).len() == toks@.len());
    assert(items.take(0) =~= Seq::empty());
    while i < toks.len()
        invariant
            i <= toks.len(),
            spans_within(toks@, data@.len()),
            cut(data@, toks@) == tokens(data@),
            toks@.len() == items.len(),
            items == Seq::new(tokens(data@).len(), |k: int| hex_item(tokens(data@)[k])),
            DataType::of_tag(data_type@) != DataType::Unknown,
            collected(items.take(i as int)) == Ok::<Seq<u8>, Failure>(bytes@),
        decreases toks.len() - i,
    {
        let (from, to) = toks[i];
        proof {
            assert(cut(data@, toks@)[i as int] == data@.subrange(from as int, to as int));
            assert(items.take(i + 1).drop_last() =~= items.take(i as int));
            assert(items.take(i + 1).last() == hex_item(tokens(data@)[i as int]));
        }
        match read_integer(data, from, to, 16, 0xff) {
            Ok(v) => {
                bytes.push(v as u8);
            },
            Err(why) => {
                proof {
                    lemma_collected_failure(items, i + 1);
                }
                return Err(
                    ParseError::with_detail(ErrorKind::Decode, "Failed to decode hex: ", why),
                );
            },
        }
        i += 1;
    }
    assert(items.take(i as int) =~= items);
    decode_elements(t, &bytes)
}

fn read_decimal_chars<T: Scalar>(data: &Vec<char>) -> (r: Result<Vec<T>, ParseError>)
    ensures
        yields(r, decimal_reading::<T>(data@)),
{
    let toks = split(data);
    let ghost items = Seq::new(
        tokens(data@).len(),
        |k: int| decimal_element::<T>(tokens(data@)[k]),
    );
    let mut out: Vec<T> = Vec::new();
    let mut i: usize = 0;
    assert(cut(data@, toks@).len() == toks@.len());
    assert(items.take(0) =~= Seq::empty());
    while i < toks.len()
        invariant
            i <= toks.len(),
            spans_within(toks@, data@.len()),
            cut(data@, toks@) == tokens(data@),
            toks@.len() == items.len(),
            items == Seq::new(
                tokens(data@).len(),
                |k: int| decimal_element::<T>(tokens(data@)[k]),
            ),
            collected(items.take(i as int)) == Ok::<Seq<T>, Failure>(out@),
        decreases toks.len() - i,
    {
        let (from, to) = toks[i];
        proof {
            assert(cut(data@, toks@)[i as int] == data@.subrange(from as int, to as int));
            assert(items.take(i + 1).drop_last() =~= items.take(i as int));
            assert(items.take(i + 1).last() == decimal_element::<T>(tokens(data@)[i as int]));
        }
        match T::from_decimal(data, from, to) {
            Ok(v) => {
                out.push(v);
            },
            Err(why) => {
                proof {
                    lemma_collected_failure(items, i + 1);
                }
                return Err(
                    ParseError::with_detail(
                        ErrorKind::Decode,
                        "Failed to decode decimal data: ",
                        why,
                    ),
                );
            },
        }
        i += 1;
    }
    assert(items.take(i as int) =~= items);
    Ok(out)
}

/// Decodes a hexadecimal blob: white-space-delimited tokens, each one byte,
/// grouped into big-endian elements of the type that `data_type` names.
///
/// Fails as unsupported on an unknown tag, which the cause names; else as a
/// decode failure on the first token that is no byte, with the reason why it is
/// none; else as a conversion failure when an element does not fit the target
/// type; else as incomplete when the bytes end inside an element.
pub fn read_hex<T: Scalar>(data: &str, data_type: &str) -> (r: Result<Vec<T>, ParseError>)
    ensures
        yields(r, hex_reading::<T>(data@, data_type@)),
{
    let chars = chars_of(data);
    read_hex_chars(&chars, data_type)
}

/// Decodes a decimal blob: white-space-delimited tokens, each an optional `+`
/// and then a run of ASCII digits. Fails as a decode failure on the first token
/// that is anything else or whose value does not fit the target type, with the
/// reason why.
///
/// This holds for every target type. For `Single` too a token is the numeral
/// of a non-negative integer and nothing else: a minus sign, a decimal point,
/// an exponent, and the words for infinity and for what is no number are
/// decode failures. An integer that has no pattern of its own gives the nearest
/// one, and infinity beyond the finite range.
pub fn read_decimal<T: Scalar>(data: &str) -> (r: Result<Vec<T>, ParseError>)
    ensures
        yields(r, decimal_reading::<T>(data@)),
{
    let chars = chars_of(data);
    read_decimal_chars(&chars)
}

/// Decodes a blob into numbers of type `T`, after detecting its encoding.
pub fn read<T: Scalar>(data: &str, data_type: &str) -> (r: Result<Vec<T>, ParseError>)
    ensures
        yields(r, reading::<T>(data@, data_type@)),
{
    let chars = chars_of(data);
    match detect(&chars) {
        Encoding::Decimal => read_decimal_chars(&chars),
        Encoding::Hex => read_hex_chars(&chars, data_type),
    }
}

} // verus!
