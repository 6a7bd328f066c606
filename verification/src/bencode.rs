//! Decoding of bencoded values: integers `i..e`, byte strings `<length>:..`,
//! lists `l..e` and dictionaries `d..e`.

use vstd::prelude::*;

verus! {

/// A bencoded value, as the mathematics sees it.
pub enum SpecValue {
    Integer(int),
    Bytes(Seq<u8>),
    List(Seq<SpecValue>),
    Dict(Seq<(Seq<u8>, SpecValue)>),
}

/// A bencoded value. A dictionary keeps its entries in the order in which
/// they were written.
#[derive(Debug, PartialEq, Eq)]
pub enum Value {
    Integer(i64),
    Bytes(Vec<u8>),
    List(Vec<Value>),
    Dict(Vec<(Vec<u8>, Value)>),
}

/// What `value` is, apart from how it is stored.
pub open spec fn spec_value(value: Value) -> SpecValue
    decreases value,
{
    match value {
        Value::Integer(n) => SpecValue::Integer(n as int),
        Value::Bytes(bytes) => SpecValue::Bytes(bytes@),
        Value::List(items) => SpecValue::List(
            Seq::new(
                items@.len(),
                |i: int|
                    if 0 <= i < items@.len() {
                        spec_value(items@[i])
                    } else {
                        SpecValue::Integer(0)
                    },
            ),
        ),
        Value::Dict(entries) => SpecValue::Dict(
            Seq::new(
                entries@.len(),
                |i: int|
                    if 0 <= i < entries@.len() {
                        (entries@[i].0@, spec_value(entries@[i].1))
                    } else {
                        (Seq::empty(), SpecValue::Integer(0))
                    },
            ),
        ),
    }
}

impl View for Value {
    type V = SpecValue;

    open spec fn view(&self) -> SpecValue {
        spec_value(*self)
    }
}

/// The views of `items`, one by one.
pub open spec fn spec_items_view(items: Seq<Value>) -> Seq<SpecValue> {
    Seq::new(items.len(), |i: int| items[i]@)
}

/// The views of `entries`, one by one.
pub open spec fn spec_entries_view(entries: Seq<(Vec<u8>, Value)>) -> Seq<(Seq<u8>, SpecValue)> {
    Seq::new(entries.len(), |i: int| (entries[i].0@, entries[i].1@))
}

/// Why bytes are not a bencoded value. Each names the offset at which the
/// value that cannot be read begins.
#[derive(Debug, Clone, Copy, PartialEq, Eq, Structural)]
pub enum DecodeError {
    /// No value begins here: the input has ended, the first byte begins no
    /// value, an integer has no end, or a string has no length in front.
    Invalid { at: usize },
    /// What stands between `i` and `e` is not a decimal number that fits 64
    /// bits.
    BadInteger { at: usize },
    /// The key of a dictionary entry is not a string.
    KeyNotString { at: usize },
    /// A string declares more bytes than the input holds.
    Truncated { at: usize },
}

/// The first offset at or after `at` at which `s` holds `byte`, or the
/// length of `s` if it holds `byte` nowhere from `at` on.
pub open spec fn spec_find(s: Seq<u8>, at: int, byte: u8) -> int
    decreases s.len() - at,
{
    if at < 0 || at >= s.len() {
        s.len() as int
    } else if s[at] == byte {
        at
    } else {
        spec_find(s, at + 1, byte)
    }
}

/// Whether `byte` is an ASCII decimal digit.
pub open spec fn spec_is_digit(byte: u8) -> bool {
    48 <= byte <= 57
}

/// Whether `text` is made of decimal digits alone.
pub open spec fn spec_all_digits(text: Seq<u8>) -> bool {
    forall|i: int| 0 <= i < text.len() ==> spec_is_digit(#[trigger] text[i])
}

/// The number that the decimal digits `text` spell.
pub open spec fn spec_digits_value(text: Seq<u8>) -> nat
    decreases text.len(),
{
    if text.len() == 0 {
        0
    } else {
        (spec_digits_value(text.drop_last()) * 10 + (text.last() - 48)) as nat
    }
}

/// The length that `text` spells: one or more decimal digits, whose number
/// fits the machine.
pub open spec fn spec_parse_length(text: Seq<u8>) -> Option<usize> {
    if text.len() > 0 && spec_all_digits(text) && spec_digits_value(text) <= usize::MAX {
        Some(spec_digits_value(text) as usize)
    } else {
        None
    }
}

/// The integer that `text` spells: an optional sign, then one or more
/// decimal digits, whose number fits 64 bits.
pub open spec fn spec_parse_integer(text: Seq<u8>) -> Option<i64> {
    let signed = text.len() > 0 && (text[0] == 43 || text[0] == 45);
    let digits = if signed {
        text.skip(1)
    } else {
        text
    };
    let magnitude = spec_digits_value(digits) as int;
    let number = if text.len() > 0 && text[0] == 45 {
        -magnitude
    } else {
        magnitude
    };
    if digits.len() > 0 && spec_all_digits(digits) && i64::MIN <= number <= i64::MAX {
        Some(number as i64)
    } else {
        None
    }
}

/// The value that begins at offset `at` of `s`, with the offset at which it
/// ends, or why no value can be read there.
///
/// An integer is `i`, its text and `e`; a string is its length in decimal,
/// a colon and as many bytes; a list is `l`, its items and `e`; a dictionary
/// is `d`, its entries, each a string and a value, and `e`.
pub open spec fn spec_decode(s: Seq<u8>, at: int) -> Result<(SpecValue, int), DecodeError>
    decreases s.len() - at, 0int,
{
    if at < 0 || at >= s.len() {
        Err(DecodeError::Invalid { at: at as usize })
    } else if s[at] == 105 {
        let end = spec_find(s, at + 1, 101);
        if end >= s.len() {
            Err(DecodeError::Invalid { at: at as usize })
        } else {
            match spec_parse_integer(s.subrange(at + 1, end)) {
                Some(n) => Ok((SpecValue::Integer(n as int), end + 1)),
                None => Err(DecodeError::BadInteger { at: at as usize }),
            }
        }
    } else if s[at] == 108 {
        match spec_decode_list(s, at + 1) {
            Ok((items, end)) => Ok((SpecValue::List(items), end)),
            Err(error) => Err(error),
        }
    } else if s[at] == 100 {
        match spec_decode_dict(s, at + 1) {
            Ok((entries, end)) => Ok((SpecValue::Dict(entries), end)),
            Err(error) => Err(error),
        }
    } else if spec_is_digit(s[at]) {
        let colon = spec_find(s, at, 58);
        if colon >= s.len() {
            Err(DecodeError::Invalid { at: at as usize })
        } else {
            match spec_parse_length(s.subrange(at, colon)) {
                None => Err(DecodeError::Invalid { at: at as usize }),
                Some(length) => if colon + 1 + length > s.len() {
                    Err(DecodeError::Truncated { at: at as usize })
                } else {
                    Ok(
                        (
                            SpecValue::Bytes(s.subrange(colon + 1, colon + 1 + length)),
                            colon + 1 + length,
                        ),
                    )
                },
            }
        }
    } else {
        Err(DecodeError::Invalid { at: at as usize })
    }
}

/// The items of a list from offset `at` up to the `e` that ends the list,
/// with the offset just after that `e`.
pub open spec fn spec_decode_list(s: Seq<u8>, at: int) -> Result<(Seq<SpecValue>, int), DecodeError>
    decreases s.len() - at, 1int,
{
    if 0 <= at < s.len() && s[at] == 101 {
        Ok((Seq::empty(), at + 1))
    } else {
        match spec_decode(s, at) {
            Err(error) => Err(error),
            Ok((item, next)) => if at < next <= s.len() {
                match spec_decode_list(s, next) {
                    Ok((items, end)) => Ok((seq![item] + items, end)),
                    Err(error) => Err(error),
                }
            } else {
                Err(DecodeError::Invalid { at: at as usize })
            },
        }
    }
}

/// The entries of a dictionary from offset `at` up to the `e` that ends the
/// dictionary, with the offset just after that `e`.
pub open spec fn spec_decode_dict(s: Seq<u8>, at: int) -> Result<
    (Seq<(Seq<u8>, SpecValue)>, int),
    DecodeError,
>
    decreases s.len() - at, 1int,
{
    if 0 <= at < s.len() && s[at] == 101 {
        Ok((Seq::empty(), at + 1))
    } else {
        match spec_decode(s, at) {
            Err(error) => Err(error),
            Ok((SpecValue::Bytes(key), middle)) => if at < middle <= s.len() {
                match spec_decode(s, middle) {
                    Err(error) => Err(error),
                    Ok((value, next)) => if middle < next <= s.len() {
                        match spec_decode_dict(s, next) {
                            Ok((entries, end)) => Ok((seq![(key, value)] + entries, end)),
                            Err(error) => Err(error),
                        }
                    } else {
                        Err(DecodeError::Invalid { at: at as usize })
                    },
                }
            } else {
                Err(DecodeError::Invalid { at: at as usize })
            },
            Ok((_, _)) => Err(DecodeError::KeyNotString { at: at as usize }),
        }
    }
}

/// A value that is read takes up at least one byte and ends within the
/// input.
pub proof fn lemma_decode_advances(s: Seq<u8>, at: int)
    ensures
        spec_decode(s, at) matches Ok((_, end)) ==> 0 <= at < end <= s.len(),
    decreases s.len() - at, 0int,
{
    if 0 <= at < s.len() {
        if s[at] == 105 {
            lemma_find_bounds(s, at + 1, 101);
        } else if s[at] == 108 {
            lemma_decode_list_advances(s, at + 1);
        } else if s[at] == 100 {
            lemma_decode_dict_advances(s, at + 1);
        } else if spec_is_digit(s[at]) {
            lemma_find_bounds(s, at, 58);
        }
    }
}

/// A list that is read ends within the input, after where it began.
pub proof fn lemma_decode_list_advances(s: Seq<u8>, at: int)
    ensures
        spec_decode_list(s, at) matches Ok((_, end)) ==> 0 <= at < end <= s.len(),
    decreases s.len() - at, 1int,
{
    if !(0 <= at < s.len() && s[at] == 101) {
        lemma_decode_advances(s, at);
        if let Ok((_, next)) = spec_decode(s, at) {
            lemma_decode_list_advances(s, next);
        }
    }
}

/// A dictionary that is read ends within the input, after where it began.
pub proof fn lemma_decode_dict_advances(s: Seq<u8>, at: int)
    ensures
        spec_decode_dict(s, at) matches Ok((_, end)) ==> 0 <= at < end <= s.len(),
    decreases s.len() - at, 1int,
{
    if !(0 <= at < s.len() && s[at] == 101) {
        lemma_decode_advances(s, at);
        if let Ok((_, middle)) = spec_decode(s, at) {
            lemma_decode_advances(s, middle);
            if let Ok((_, next)) = spec_decode(s, middle) {
                lemma_decode_dict_advances(s, next);
            }
        }
    }
}

/// `spec_find` answers an offset between `at` and the end of the input;
/// short of the end, that offset holds the byte, and no offset before it
/// from `at` on does.
pub proof fn lemma_find_bounds(s: Seq<u8>, at: int, byte: u8)
    requires
        0 <= at <= s.len(),
    ensures
        at <= spec_find(s, at, byte) <= s.len(),
        spec_find(s, at, byte) < s.len() ==> s[spec_find(s, at, byte)] == byte,
        forall|i: int| at <= i < spec_find(s, at, byte) ==> s[i] != byte,
    decreases s.len() - at,
{
    if at < s.len() && s[at] != byte {
        lemma_find_bounds(s, at + 1, byte);
    }
}

/// The number that digits spell is no less than the number that any of
/// their prefixes spells.
pub proof fn lemma_digits_value_grows(text: Seq<u8>, k: int)
    requires
        0 <= k <= text.len(),
        spec_all_digits(text),
    ensures
        spec_digits_value(text.take(k)) <= spec_digits_value(text),
    decreases text.len() - k,
{
    if k == text.len() {
        assert(text.take(k) =~= text);
    } else {
        lemma_digits_value_grows(text, k + 1);
        assert(text.take(k + 1).drop_last() =~= text.take(k));
        assert(spec_is_digit(text[k]));
    }
}

/// The first offset at or after `at` at which `data` holds `byte`, or the
/// length of `data`.
pub fn find(data: &[u8], at: usize, byte: u8) -> (found: usize)
    requires
        at <= data@.len(),
    ensures
        found == spec_find(data@, at as int, byte),
        at <= found <= data@.len(),
{
    let size: usize = data.len();
    let mut i: usize = at;
    while i < size && data[i] != byte
        invariant
            at <= i <= size,
            size == data@.len(),
            spec_find(data@, at as int, byte) == spec_find(data@, i as int, byte),
        decreases size - i,
    {
        i += 1;
    }
    i
}

/// The number that the digits of `data` from `from` up to `to` spell, if
/// they are digits, at least one, and the number fits 64 bits unsigned.
pub fn parse_digits(data: &[u8], from: usize, to: usize) -> (number: Option<u64>)
    requires
        from <= to <= data@.len(),
    ensures
        number.is_some() == (from < to && spec_all_digits(data@.subrange(from as int, to as int))
            && spec_digits_value(data@.subrange(from as int, to as int)) <= u64::MAX),
        number matches Some(n) ==> n == spec_digits_value(data@.subrange(from as int, to as int)),
{
    if from == to {
        return None;
    }
    let ghost text = data@.subrange(from as int, to as int);
    let mut number: u64 = 0;
    let mut i: usize = from;
    while i < to
        invariant
            from <= i <= to <= data@.len(),
            text == data@.subrange(from as int, to as int),
            spec_all_digits(text.take(i - from)),
            number == spec_digits_value(text.take(i - from)),
        decreases to - i,
    {
        let byte: u8 = data[i];
        proof {
            assert(text[i - from] == byte);
            assert(text.take(i - from + 1).drop_last() =~= text.take(i - from));
        }
        if byte < 48 || byte > 57 {
            proof {
                assert(!spec_is_digit(text[i - from]));
            }
            return None;
        }
        proof {
            assert forall|k: int| 0 <= k < i - from + 1 implies spec_is_digit(
                #[trigger] text.take(i - from + 1)[k],
            ) by {
                if k < i - from {
                    assert(text.take(i - from)[k] == text[k]);
                }
            }
        }
        let digit: u64 = (byte - 48) as u64;
        let next: Option<u64> = match number.checked_mul(10) {
            Some(tens) => tens.checked_add(digit),
            None => None,
        };
        match next {
            Some(n) => {
                number = n;
            },
            None => {
                proof {
                    if spec_all_digits(text) {
                        lemma_digits_value_grows(text, i - from + 1);
                    }
                }
                return None;
            },
        }
        i += 1;
    }
    proof {
        assert(text.take(to - from) =~= text);
    }
    Some(number)
}

/// The integer that the text of `data` from `from` up to `to` spells.
pub fn parse_integer(data: &[u8], from: usize, to: usize) -> (number: Option<i64>)
    requires
        from <= to <= data@.len(),
    ensures
        number == spec_parse_integer(data@.subrange(from as int, to as int)),
{
    let ghost text = data@.subrange(from as int, to as int);
    if from == to {
        return None;
    }
    let first: u8 = data[from];
    let signed: bool = first == 43 || first == 45;
    let start: usize = if signed {
        from + 1
    } else {
        from
    };
    proof {
        assert(text[0] == first);
        if signed {
            assert(text.skip(1) =~= data@.subrange(start as int, to as int));
        }
    }
    match parse_digits(data, start, to) {
        None => None,
        Some(magnitude) => {
            if first == 45 {
                if magnitude <= 9223372036854775807 {
                    Some(-(magnitude as i64))
                } else if magnitude == 9223372036854775808 {
                    Some(i64::MIN)
                } else {
                    None
                }
            } else if magnitude <= 9223372036854775807 {
                Some(magnitude as i64)
            } else {
                None
            }
        },
    }
}

/// The length that the digits of `data` from `from` up to `to` spell.
pub fn parse_length(data: &[u8], from: usize, to: usize) -> (length: Option<usize>)
    requires
        from <= to <= data@.len(),
    ensures
        length == spec_parse_length(data@.subrange(from as int, to as int)),
{
    match parse_digits(data, from, to) {
        None => None,
        Some(number) => {
            if number <= usize::MAX as u64 {
                Some(number as usize)
            } else {
                None
            }
        },
    }
}

/// Reads the value that begins at offset `at` of `data`, and says where it
/// ends.
pub fn decode_at(data: &[u8], at: usize) -> (result: Result<(Value, usize), DecodeError>)
    ensures
        match spec_decode(data@, at as int) {
            Ok((value, end)) => {
                &&& result matches Ok((decoded, stop))
                &&& decoded@ == value
                &&& stop == end
                &&& at < stop <= data@.len()
            },
            Err(error) => result == Err::<(Value, usize), DecodeError>(error),
        },
    decreases data@.len() - at, 0int,
{
    let size: usize = data.len();
    proof {
        lemma_decode_advances(data@, at as int);
    }
    if at >= size {
        return Err(DecodeError::Invalid { at });
    }
    let first: u8 = data[at];
    if first == 105 {
        let end: usize = find(data, at + 1, 101);
        if end >= size {
            return Err(DecodeError::Invalid { at });
        }
        match parse_integer(data, at + 1, end) {
            Some(n) => Ok((Value::Integer(n), end + 1)),
            None => Err(DecodeError::BadInteger { at }),
        }
    } else if first == 108 {
        match decode_list(data, at + 1) {
            Ok((items, end)) => {
                proof {
                    assert((Value::List(items))@ == SpecValue::List(spec_items_view(items@))) by {
                        assert((Value::List(items))@->List_0 =~= spec_items_view(items@));
                    }
                }
                Ok((Value::List(items), end))
            },
            Err(error) => Err(error),
        }
    } else if first == 100 {
        match decode_dict(data, at + 1) {
            Ok((entries, end)) => {
                proof {
                    assert((Value::Dict(entries))@ == SpecValue::Dict(spec_entries_view(entries@)))
                        by {
                        assert((Value::Dict(entries))@->Dict_0 =~= spec_entries_view(entries@));
                    }
                }
                Ok((Value::Dict(entries), end))
            },
            Err(error) => Err(error),
        }
    } else if 48 <= first && first <= 57 {
        let colon: usize = find(data, at, 58);
        if colon >= size {
            return Err(DecodeError::Invalid { at });
        }
        match parse_length(data, at, colon) {
            None => Err(DecodeError::Invalid { at }),
            Some(length) => {
                if length > size - (colon + 1) {
                    return Err(DecodeError::Truncated { at });
                }
                let start: usize = colon + 1;
                let bytes: Vec<u8> = vstd::slice::slice_to_vec(
                    vstd::slice::slice_subrange(data, start, start + length),
                );
                Ok((Value::Bytes(bytes), start + length))
            },
        }
    } else {
        Err(DecodeError::Invalid { at })
    }
}

/// Reads the items of a list from offset `at` up to the `e` that ends the
/// list, and says where the list ends.
pub fn decode_list(data: &[u8], at: usize) -> (result: Result<(Vec<Value>, usize), DecodeError>)
    ensures
        match spec_decode_list(data@, at as int) {
            Ok((items, end)) => {
                &&& result matches Ok((decoded, stop))
                &&& spec_items_view(decoded@) == items
                &&& stop == end
                &&& at < stop <= data@.len()
            },
            Err(error) => result == Err::<(Vec<Value>, usize), DecodeError>(error),
        },
    decreases data@.len() - at, 1int,
{
    let size: usize = data.len();
    if at > size {
        proof {
            assert(spec_decode(data@, at as int) == Err::<(SpecValue, int), DecodeError>(
                DecodeError::Invalid { at },
            ));
        }
        return Err(DecodeError::Invalid { at });
    }
    let mut items: Vec<Value> = Vec::new();
    let mut cur: usize = at;
    proof {
        lemma_decode_list_advances(data@, at as int);
        assert(spec_items_view(items@) =~= Seq::<SpecValue>::empty());
        match spec_decode_list(data@, at as int) {
            Ok((rest, end)) => {
                assert(spec_items_view(items@) + rest =~= rest);
            },
            Err(_) => {},
        }
    }
    loop
        invariant
            at <= cur <= size,
            size == data@.len(),
            spec_decode_list(data@, at as int) == (match spec_decode_list(data@, cur as int) {
                Ok((rest, end)) => Ok::<(Seq<SpecValue>, int), DecodeError>(
                    (spec_items_view(items@) + rest, end),
                ),
                Err(error) => Err::<(Seq<SpecValue>, int), DecodeError>(error),
            }),
            spec_decode_list(data@, at as int) matches Ok((_, end)) ==> at < end <= data@.len(),
        decreases size + 1 - cur,
    {
        if cur < size && data[cur] == 101 {
            proof {
                assert(spec_items_view(items@) + Seq::<SpecValue>::empty() =~= spec_items_view(
                    items@,
                ));
            }
            return Ok((items, cur + 1));
        }
        proof {
            lemma_decode_advances(data@, cur as int);
        }
        match decode_at(data, cur) {
            Err(error) => {
                return Err(error);
            },
            Ok((item, next)) => {
                proof {
                    let before = spec_items_view(items@);
                    let after = spec_items_view(items@.push(item));
                    assert(after =~= before + seq![item@]);
                    match spec_decode_list(data@, next as int) {
                        Ok((rest, end)) => {
                            assert(before + (seq![item@] + rest) =~= after + rest);
                        },
                        Err(_) => {},
                    }
                }
                items.push(item);
                cur = next;
            },
        }
    }
}

/// Reads the entries of a dictionary from offset `at` up to the `e` that
/// ends the dictionary, and says where the dictionary ends.
pub fn decode_dict(data: &[u8], at: usize) -> (result: Result<
    (Vec<(Vec<u8>, Value)>, usize),
    DecodeError,
>)
    ensures
        match spec_decode_dict(data@, at as int) {
            Ok((entries, end)) => {
                &&& result matches Ok((decoded, stop))
                &&& spec_entries_view(decoded@) == entries
                &&& stop == end
                &&& at < stop <= data@.len()
            },
            Err(error) => result == Err::<(Vec<(Vec<u8>, Value)>, usize), DecodeError>(error),
        },
    decreases data@.len() - at, 1int,
{
    let size: usize = data.len();
    if at > size {
        proof {
            assert(spec_decode(data@, at as int) == Err::<(SpecValue, int), DecodeError>(
                DecodeError::Invalid { at },
            ));
        }
        return Err(DecodeError::Invalid { at });
    }
    let mut entries: Vec<(Vec<u8>, Value)> = Vec::new();
    let mut cur: usize = at;
    proof {
        lemma_decode_dict_advances(data@, at as int);
        assert(spec_entries_view(entries@) =~= Seq::<(Seq<u8>, SpecValue)>::empty());
        match spec_decode_dict(data@, at as int) {
            Ok((rest, end)) => {
                assert(spec_entries_view(entries@) + rest =~= rest);
            },
            Err(_) => {},
        }
    }
    loop
        invariant
            at <= cur <= size,
            size == data@.len(),
            spec_decode_dict(data@, at as int) == (match spec_decode_dict(data@, cur as int) {
                Ok((rest, end)) => Ok::<(Seq<(Seq<u8>, SpecValue)>, int), DecodeError>(
                    (spec_entries_view(entries@) + rest, end),
                ),
                Err(error) => Err::<(Seq<(Seq<u8>, SpecValue)>, int), DecodeError>(error),
            }),
            spec_decode_dict(data@, at as int) matches Ok((_, end)) ==> at < end <= data@.len(),
        decreases size + 1 - cur,
    {
        if cur < size && data[cur] == 101 {
            proof {
                assert(spec_entries_view(entries@) + Seq::<(Seq<u8>, SpecValue)>::empty()
                    =~= spec_entries_view(entries@));
            }
            return Ok((entries, cur + 1));
        }
        proof {
            lemma_decode_advances(data@, cur as int);
        }
        let (key, middle): (Vec<u8>, usize) = match decode_at(data, cur) {
            Err(error) => {
                return Err(error);
            },
            Ok((Value::Bytes(key), middle)) => (key, middle),
            Ok((_, _)) => {
                return Err(DecodeError::KeyNotString { at: cur });
            },
        };
        proof {
            lemma_decode_advances(data@, middle as int);
        }
        match decode_at(data, middle) {
            Err(error) => {
                return Err(error);
            },
            Ok((value, next)) => {
                proof {
                    let before = spec_entries_view(entries@);
                    let after = spec_entries_view(entries@.push((key, value)));
                    assert(after =~= before + seq![(key@, value@)]);
                    match spec_decode_dict(data@, next as int) {
                        Ok((rest, end)) => {
                            assert(before + (seq![(key@, value@)] + rest) =~= after + rest);
                        },
                        Err(_) => {},
                    }
                }
                entries.push((key, value));
                cur = next;
            },
        }
    }
}

/// Reads the bencoded value at the front of `encoded_value`, and gives it
/// with what follows it.
pub fn decode_bencoded_value(encoded_value: &[u8]) -> (result: Result<(Value, &[u8]), DecodeError>)
    ensures
        match spec_decode(encoded_value@, 0) {
            Ok((value, end)) => {
                &&& result matches Ok((decoded, rest))
                &&& decoded@ == value
                &&& rest@ == encoded_value@.skip(end)
            },
            Err(error) => result == Err::<(Value, &[u8]), DecodeError>(error),
        },
{
    match decode_at(encoded_value, 0) {
        Ok((value, end)) => {
            let rest: &[u8] = vstd::slice::slice_subrange(encoded_value, end, encoded_value.len());
            proof {
                assert(encoded_value@.subrange(end as int, encoded_value@.len() as int)
                    =~= encoded_value@.skip(end as int));
            }
            Ok((value, rest))
        },
        Err(error) => Err(error),
    }
}

} // verus!
