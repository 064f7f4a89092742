use vstd::prelude::*;
use vstd::string::StringSliceAdditionalSpecFns;

verus! {

/// Version of this engine package.
pub const ENGINE_VERSION: &'static str = "0.19.0";

/// The pieces of a byte string between occurrences of `separator`, in
/// order; an empty string is one empty piece.
pub open spec fn split_bytes(bytes: Seq<u8>, separator: u8) -> Seq<Seq<u8>>
    decreases bytes.len(),
{
    if bytes.len() == 0 {
        seq![Seq::empty()]
    } else {
        let pieces = split_bytes(bytes.drop_last(), separator);
        if bytes.last() == separator {
            pieces.push(Seq::empty())
        } else {
            pieces.update(pieces.len() - 1, pieces.last().push(bytes.last()))
        }
    }
}

/// The value of a string of ASCII decimal digits.
pub open spec fn decimal_value(digits: Seq<u8>) -> nat
    decreases digits.len(),
{
    if digits.len() == 0 {
        0
    } else {
        decimal_value(digits.drop_last()) * 10 + (digits.last() - 48) as nat
    }
}

/// Every byte is an ASCII decimal digit.
pub open spec fn all_digits(digits: Seq<u8>) -> bool {
    forall|i: int| 0 <= i < digits.len() ==> 48 <= #[trigger] digits[i] <= 57
}

/// Reads an unsigned 32-bit decimal number as Rust's standard parser does:
/// an optional `+`, then one or more digits whose value fits in `u32`.
pub open spec fn parse_u32(text: Seq<u8>) -> Option<u32> {
    let digits = if text.len() > 0 && text[0] == 43 {
        text.drop_first()
    } else {
        text
    };
    if digits.len() > 0 && all_digits(digits) && decimal_value(digits) <= u32::MAX {
        Some(decimal_value(digits) as u32)
    } else {
        None
    }
}

/// Component `index` of a dotted version such as `0.19.0`, ignoring any
/// `-` suffix of that component; zero when the component is missing or not
/// a number.
pub open spec fn version_component(version: Seq<u8>, index: int) -> u32 {
    let components = split_bytes(version, 46);
    if 0 <= index < components.len() {
        match parse_u32(split_bytes(components[index], 45)[0]) {
            Some(value) => value,
            None => 0,
        }
    } else {
        0
    }
}

proof fn lemma_split_nonempty(bytes: Seq<u8>, separator: u8)
    ensures
        split_bytes(bytes, separator).len() >= 1,
    decreases bytes.len(),
{
    if bytes.len() > 0 {
        lemma_split_nonempty(bytes.drop_last(), separator);
    }
}

proof fn lemma_split_step(bytes: Seq<u8>, separator: u8, position: int)
    requires
        0 <= position < bytes.len(),
    ensures
        split_bytes(bytes.take(position + 1), separator) == if bytes[position] == separator {
            split_bytes(bytes.take(position), separator).push(Seq::empty())
        } else {
            let pieces = split_bytes(bytes.take(position), separator);
            pieces.update(pieces.len() - 1, pieces.last().push(bytes[position]))
        },
{
    assert(bytes.take(position + 1).drop_last() =~= bytes.take(position));
}

/// Locates piece `index` of `bytes` split at `separator`, as the range of
/// positions it occupies.
fn find_piece(bytes: &Vec<u8>, separator: u8, index: usize) -> (range: Option<(usize, usize)>)
    ensures
        match range {
            Some((start, end)) => {
                &&& index < split_bytes(bytes@, separator).len()
                &&& start <= end <= bytes@.len()
                &&& bytes@.subrange(start as int, end as int) == split_bytes(
                    bytes@,
                    separator,
                )[index as int]
            },
            None => index >= split_bytes(bytes@, separator).len(),
        },
{
    let mut piece: usize = 0;
    let mut start: usize = 0;
    let mut position: usize = 0;
    let mut found: Option<(usize, usize)> = None;
    proof {
        assert(bytes@.take(0) =~= Seq::<u8>::empty());
        assert(bytes@.subrange(0, 0) =~= Seq::<u8>::empty());
    }
    while position < bytes.len()
        invariant
            position <= bytes@.len(),
            start <= position,
            piece <= position,
            piece + 1 == split_bytes(bytes@.take(position as int), separator).len(),
            bytes@.subrange(start as int, position as int) == split_bytes(
                bytes@.take(position as int),
                separator,
            ).last(),
            match found {
                Some((s, e)) => {
                    &&& index < piece
                    &&& s <= e <= position
                    &&& bytes@.subrange(s as int, e as int) == split_bytes(
                        bytes@.take(position as int),
                        separator,
                    )[index as int]
                },
                None => index >= piece,
            },
        decreases bytes@.len() - position,
    {
        let ghost before = split_bytes(bytes@.take(position as int), separator);
        proof {
            lemma_split_step(bytes@, separator, position as int);
        }
        if bytes[position] == separator {
            if found.is_none() && piece == index {
                found = Some((start, position));
            }
            piece = piece + 1;
            start = position + 1;
            proof {
                assert(bytes@.subrange(start as int, start as int) =~= Seq::<u8>::empty());
            }
        } else {
            proof {
                assert(bytes@.subrange(start as int, position + 1) =~= bytes@.subrange(
                    start as int,
                    position as int,
                ).push(bytes@[position as int]));
            }
        }
        position = position + 1;
    }
    proof {
        assert(bytes@.take(position as int) =~= bytes@);
    }
    match found {
        Some(range) => Some(range),
        None => {
            if piece == index {
                Some((start, position))
            } else {
                None
            }
        },
    }
}

proof fn lemma_decimal_grows(digits: Seq<u8>, prefix: int)
    requires
        0 <= prefix <= digits.len(),
        all_digits(digits),
    ensures
        decimal_value(digits.take(prefix)) <= decimal_value(digits),
    decreases digits.len() - prefix,
{
    if prefix < digits.len() {
        lemma_decimal_grows(digits, prefix + 1);
        assert(digits.take(prefix + 1).drop_last() =~= digits.take(prefix));
    } else {
        assert(digits.take(prefix) =~= digits);
    }
}

/// Reads an unsigned decimal number the way Rust's standard parser reads a
/// `u32`.
fn parse_u32_bytes(text: &Vec<u8>) -> (value: Option<u32>)
    ensures
        value == parse_u32(text@),
{
    let mut first: usize = 0;
    if text.len() > 0 && text[0] == 43 {
        first = 1;
    }
    let ghost digits = if text@.len() > 0 && text@[0] == 43 {
        text@.drop_first()
    } else {
        text@
    };
    proof {
        assert(digits =~= text@.subrange(first as int, text@.len() as int));
    }
    if first >= text.len() {
        return None;
    }
    let mut value: u64 = 0;
    let mut position: usize = first;
    while position < text.len()
        invariant
            first <= position <= text@.len(),
            digits == text@.subrange(first as int, text@.len() as int),
            digits == (if text@.len() > 0 && text@[0] == 43 {
                text@.drop_first()
            } else {
                text@
            }),
            all_digits(digits.take(position - first)),
            value == decimal_value(digits.take(position - first)),
            value <= u32::MAX,
        decreases text@.len() - position,
    {
        let byte = text[position];
        proof {
            assert(digits.take(position - first + 1).drop_last() =~= digits.take(position - first));
            assert(digits[position - first] == byte);
        }
        if byte < 48 || byte > 57 {
            proof {
                assert(!all_digits(digits));
            }
            return None;
        }
        let next = value * 10 + (byte - 48) as u64;
        if next > u32::MAX as u64 {
            proof {
                assert(all_digits(digits.take(position - first + 1)));
                if all_digits(digits) {
                    lemma_decimal_grows(digits, position - first + 1);
                }
            }
            return None;
        }
        value = next;
        position = position + 1;
    }
    proof {
        assert(digits.take(position - first) =~= digits);
    }
    Some(value as u32)
}

/// Component `index` of a dotted version string, ignoring any `-` suffix
/// of that component; zero when the component is missing or not a number.
pub fn parse_version_component(version: &str, index: usize) -> (component: u32)
    ensures
        component == version_component(version.spec_bytes(), index as int),
{
    let raw = version.as_bytes();
    let mut bytes: Vec<u8> = Vec::new();
    let mut i: usize = 0;
    while i < raw.len()
        invariant
            i <= raw@.len(),
            bytes@ == raw@.take(i as int),
        decreases raw@.len() - i,
    {
        bytes.push(raw[i]);
        i = i + 1;
        proof {
            assert(bytes@ =~= raw@.take(i as int));
        }
    }
    proof {
        assert(bytes@ =~= raw@);
    }
    match find_piece(&bytes, 46, index) {
        Some((start, end)) => {
            let mut piece: Vec<u8> = Vec::new();
            let mut j: usize = start;
            while j < end
                invariant
                    start <= j <= end,
                    end <= bytes@.len(),
                    piece@ == bytes@.subrange(start as int, j as int),
                decreases end - j,
            {
                piece.push(bytes[j]);
                j = j + 1;
                proof {
                    assert(piece@ =~= bytes@.subrange(start as int, j as int));
                }
            }
            proof {
                lemma_split_nonempty(piece@, 45);
            }
            match find_piece(&piece, 45, 0) {
                Some((head_start, head_end)) => {
                    let mut head: Vec<u8> = Vec::new();
                    let mut k: usize = head_start;
                    while k < head_end
                        invariant
                            head_start <= k <= head_end,
                            head_end <= piece@.len(),
                            head@ == piece@.subrange(head_start as int, k as int),
                        decreases head_end - k,
                    {
                        head.push(piece[k]);
                        k = k + 1;
                        proof {
                            assert(head@ =~= piece@.subrange(head_start as int, k as int));
                        }
                    }
                    match parse_u32_bytes(&head) {
                        Some(value) => value,
                        None => 0,
                    }
                },
                None => 0,
            }
        },
        None => 0,
    }
}

} // verus!
