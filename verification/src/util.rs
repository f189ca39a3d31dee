use vstd::prelude::*;
use vstd::string::*;

verus! {

/// The value of a hexadecimal digit, in either case.
pub open spec fn hex_digit_value(c: char) -> Option<u8> {
    if '0' <= c <= '9' {
        Some((c as u8 - 0x30) as u8)
    } else if 'a' <= c <= 'f' {
        Some((c as u8 - 0x61 + 10) as u8)
    } else if 'A' <= c <= 'F' {
        Some((c as u8 - 0x41 + 10) as u8)
    } else {
        None
    }
}

/// Whether `text` is an even number of hexadecimal digits.
pub open spec fn is_hex(text: Seq<char>) -> bool {
    &&& text.len() % 2 == 0
    &&& forall|i: int| 0 <= i < text.len() ==> (#[trigger] hex_digit_value(text[i])) is Some
}

/// The byte that the digits `high` and `low` spell.
pub open spec fn hex_pair(high: char, low: char) -> u8 {
    (16 * hex_digit_value(high).unwrap() + hex_digit_value(low).unwrap()) as u8
}

/// The bytes that `text` spells, two digits to a byte, in the order of the text.
pub open spec fn hex_bytes(text: Seq<char>) -> Seq<u8> {
    Seq::new(text.len() / 2, |i: int| hex_pair(text[2 * i], text[2 * i + 1]))
}

/// The upper-case hexadecimal digit of a value below sixteen.
pub open spec fn hex_digit_char(value: u8) -> char {
    if value < 10 {
        (0x30 + value) as u8 as char
    } else {
        (0x41 + value - 10) as u8 as char
    }
}

/// The upper-case hexadecimal text of `bytes`, two digits to a byte.
pub open spec fn hex_text(bytes: Seq<u8>) -> Seq<char> {
    Seq::new(
        2 * bytes.len(),
        |i: int|
            if i % 2 == 0 {
                hex_digit_char(bytes[i / 2] / 16)
            } else {
                hex_digit_char(bytes[i / 2] % 16)
            },
    )
}

/// Decoding undoes encoding: the text of any bytes is hexadecimal and spells
/// those bytes again.
pub proof fn lemma_hex_round_trip(bytes: Seq<u8>)
    ensures
        is_hex(hex_text(bytes)),
        hex_bytes(hex_text(bytes)) == bytes,
{
    let text = hex_text(bytes);
    assert forall|i: int| 0 <= i < text.len() implies (#[trigger] hex_digit_value(text[i])) is Some by {
        lemma_digit_round_trip(bytes[i / 2] / 16);
        lemma_digit_round_trip(bytes[i / 2] % 16);
    }
    assert forall|i: int| 0 <= i < bytes.len() implies #[trigger] hex_bytes(text)[i] == bytes[i] by {
        lemma_digit_round_trip(bytes[i] / 16);
        lemma_digit_round_trip(bytes[i] % 16);
        assert((2 * i) / 2 == i && (2 * i) % 2 == 0);
        assert((2 * i + 1) / 2 == i && (2 * i + 1) % 2 == 1);
    }
    assert(hex_bytes(text) =~= bytes);
}

proof fn lemma_digit_round_trip(value: u8)
    requires
        value < 16,
    ensures
        hex_digit_value(hex_digit_char(value)) == Some(value),
{
}

fn digit_of(byte: u8) -> (value: Option<u8>)
    ensures
        value == hex_digit_value(byte as char),
{
    if 0x30 <= byte && byte <= 0x39 {
        Some(byte - 0x30)
    } else if 0x61 <= byte && byte <= 0x66 {
        Some(byte - 0x61 + 10)
    } else if 0x41 <= byte && byte <= 0x46 {
        Some(byte - 0x41 + 10)
    } else {
        None
    }
}

fn digit_text(value: u8) -> (text: &'static str)
    requires
        value < 16,
    ensures
        text@ == seq![hex_digit_char(value)],
{
    proof {
        reveal_strlit("0");
        reveal_strlit("1");
        reveal_strlit("2");
        reveal_strlit("3");
        reveal_strlit("4");
        reveal_strlit("5");
        reveal_strlit("6");
        reveal_strlit("7");
        reveal_strlit("8");
        reveal_strlit("9");
        reveal_strlit("A");
        reveal_strlit("B");
        reveal_strlit("C");
        reveal_strlit("D");
        reveal_strlit("E");
        reveal_strlit("F");
    }
    let text = match value {
        0 => "0",
        1 => "1",
        2 => "2",
        3 => "3",
        4 => "4",
        5 => "5",
        6 => "6",
        7 => "7",
        8 => "8",
        9 => "9",
        10 => "A",
        11 => "B",
        12 => "C",
        13 => "D",
        14 => "E",
        _ => "F",
    };
    assert(text@ =~= seq![hex_digit_char(value)]);
    text
}

/// Reads hexadecimal text into bytes. `None` where the text is not an even
/// number of hexadecimal digits.
pub fn hex_decode(hex: &str) -> (decoded: Option<Vec<u8>>)
    ensures
        match decoded {
            Some(bytes) => is_hex(hex@) && bytes@ == hex_bytes(hex@),
            None => !is_hex(hex@),
        },
{
    broadcast use {is_ascii_spec_bytes, vstd::utf8::is_ascii_chars_nat_bound};

    if !hex.is_ascii() {
        proof {
            let i = choose|i: int| 0 <= i < hex@.len() && !('\0' <= #[trigger] hex@[i] <= '\u{7f}');
            assert(hex_digit_value(hex@[i]) is None);
        }
        return None;
    }
    let digits = hex.as_bytes();
    let count = digits.len();
    assert(count == hex@.len());
    assert(forall|i: int| 0 <= i < count ==> digits@[i] as char == #[trigger] hex@[i]);
    if count % 2 != 0 {
        return None;
    }
    let mut bytes: Vec<u8> = Vec::new();
    let mut i: usize = 0;
    while i < count / 2
        invariant
            i <= count / 2,
            count == hex@.len() == digits@.len(),
            count % 2 == 0,
            forall|k: int| 0 <= k < count ==> digits@[k] as char == #[trigger] hex@[k],
            bytes@.len() == i,
            forall|k: int| 0 <= k < 2 * i ==> (#[trigger] hex_digit_value(hex@[k])) is Some,
            forall|k: int| 0 <= k < i ==> #[trigger] bytes@[k] == hex_pair(hex@[2 * k], hex@[2 * k + 1]),
        decreases count / 2 - i,
    {
        let high = match digit_of(digits[2 * i]) {
            Some(value) => value,
            None => {
                assert(hex_digit_value(hex@[2 * i as int]) is None);
                return None;
            },
        };
        let low = match digit_of(digits[2 * i + 1]) {
            Some(value) => value,
            None => {
                assert(hex_digit_value(hex@[2 * i + 1]) is None);
                return None;
            },
        };
        assert(hex_digit_value(hex@[2 * i as int]) == Some(high));
        assert(hex_digit_value(hex@[2 * i + 1]) == Some(low));
        bytes.push(high * 16 + low);
        i = i + 1;
    }
    assert(bytes@ =~= hex_bytes(hex@));
    Some(bytes)
}

/// Writes bytes as upper-case hexadecimal text.
pub fn hex_encode(bytes: &[u8]) -> (text: String)
    ensures
        text@ == hex_text(bytes@),
{
    let mut text = String::new();
    let mut i: usize = 0;
    while i < bytes.len()
        invariant
            i <= bytes.len(),
            text@ == hex_text(bytes@.take(i as int)),
        decreases bytes.len() - i,
    {
        let byte = bytes[i];
        let ghost before = text@;
        text.append(digit_text(byte / 16));
        text.append(digit_text(byte % 16));
        i = i + 1;
        assert(text@ =~= hex_text(bytes@.take(i as int)));
    }
    assert(bytes@.take(i as int) == bytes@);
    text
}

} // verus!
