//! Numbers and lists written out as text.
use vstd::prelude::*;
use vstd::string::{StrSliceExecFns, StringExecFns};

verus! {

/// The decimal digit or lowercase hexadecimal digit of `d`.
pub open spec fn digit_char(d: int) -> char {
    if d < 10 {
        ('0' as int + d) as char
    } else {
        ('a' as int + d - 10) as char
    }
}

/// `n` in decimal, without leading zeros.
pub open spec fn decimal(n: nat) -> Seq<char>
    decreases n,
{
    if n < 10 {
        seq![digit_char(n as int)]
    } else {
        decimal(n / 10).push(digit_char((n % 10) as int))
    }
}

/// `n` in decimal, with a minus sign when it is negative.
pub open spec fn signed_decimal(n: int) -> Seq<char> {
    if n < 0 {
        seq!['-'] + decimal((-n) as nat)
    } else {
        decimal(n as nat)
    }
}

/// Each byte as two lowercase hexadecimal digits.
pub open spec fn hex_of(b: Seq<u8>) -> Seq<char>
    decreases b.len(),
{
    if b.len() == 0 {
        Seq::empty()
    } else {
        hex_of(b.drop_last()) + seq![digit_char(b.last() as int / 16), digit_char(b.last() as int % 16)]
    }
}

/// The words joined by single spaces.
pub open spec fn join_words(w: Seq<Seq<char>>) -> Seq<char>
    decreases w.len(),
{
    if w.len() == 0 {
        Seq::empty()
    } else if w.len() == 1 {
        w[0]
    } else {
        join_words(w.drop_last()) + seq![' '] + w.last()
    }
}

/// The digit `d` as one-character text.
pub fn digit_text(d: u8) -> (r: String)
    requires
        d < 16,
    ensures
        r@ == seq![digit_char(d as int)],
{
    let s = match d {
        0 => "0",
        1 => "1",
        2 => "2",
        3 => "3",
        4 => "4",
        5 => "5",
        6 => "6",
        7 => "7",
        8 => "8",
        9 => "9",
        10 => "a",
        11 => "b",
        12 => "c",
        13 => "d",
        14 => "e",
        _ => "f",
    };
    proof {
        reveal_strlit("0");
        reveal_strlit("1");
        reveal_strlit("2");
        reveal_strlit("3");
        reveal_strlit("4");
        reveal_strlit("5");
        reveal_strlit("6");
        reveal_strlit("7");
        reveal_strlit("8");
        reveal_strlit("9");
        reveal_strlit("a");
        reveal_strlit("b");
        reveal_strlit("c");
        reveal_strlit("d");
        reveal_strlit("e");
        reveal_strlit("f");
    }
    let r = String::from_str(s);
    assert(r@ =~= seq![digit_char(d as int)]);
    r
}

/// `n` in decimal.
pub fn decimal_text(n: u64) -> (r: String)
    ensures
        r@ == decimal(n as nat),
    decreases n,
{
    if n < 10 {
        digit_text(n as u8)
    } else {
        let head = decimal_text(n / 10);
        let last = digit_text((n % 10) as u8);
        let r = head.concat(last.as_str());
        assert(r@ =~= decimal(n as nat));
        r
    }
}

/// `n` in decimal, signed.
pub fn signed_decimal_text(n: i64) -> (r: String)
    ensures
        r@ == signed_decimal(n as int),
{
    if n < 0 {
        let m: u64 = if n == i64::MIN {
            0x8000_0000_0000_0000
        } else {
            (-n) as u64
        };
        let r = String::from_str("-").concat(decimal_text(m).as_str());
        proof {
            reveal_strlit("-");
        }
        r
    } else {
        decimal_text(n as u64)
    }
}

/// Each byte as two lowercase hexadecimal digits.
pub fn hex_text(b: &[u8]) -> (r: String)
    ensures
        r@ == hex_of(b@),
{
    let mut r = String::new();
    let mut i: usize = 0;
    while i < b.len()
        invariant
            i <= b@.len(),
            r@ == hex_of(b@.subrange(0, i as int)),
        decreases b@.len() - i,
    {
        let hi = digit_text(b[i] / 16);
        let lo = digit_text(b[i] % 16);
        let ghost pre = b@.subrange(0, i as int);
        assert(b@.subrange(0, i + 1).drop_last() == pre);
        r = r.concat(hi.as_str()).concat(lo.as_str());
        i = i + 1;
        assert(r@ =~= hex_of(b@.subrange(0, i as int)));
    }
    assert(b@.subrange(0, b@.len() as int) == b@);
    r
}

/// The words joined by single spaces.
pub fn join_text(w: &Vec<String>) -> (r: String)
    ensures
        r@ == join_words(w@.map_values(|s: String| s@)),
{
    let ghost ws = w@.map_values(|s: String| s@);
    let mut r = String::new();
    let mut i: usize = 0;
    while i < w.len()
        invariant
            i <= w@.len(),
            ws == w@.map_values(|s: String| s@),
            r@ == join_words(ws.subrange(0, i as int)),
        decreases w@.len() - i,
    {
        let ghost pre = ws.subrange(0, i as int);
        assert(ws.subrange(0, i + 1).drop_last() == pre);
        assert(ws.subrange(0, i + 1).last() == w@[i as int]@);
        if i == 0 {
            r = r.concat(w[i].as_str());
            assert(r@ =~= join_words(ws.subrange(0, 1)));
        } else {
            r = r.concat(" ").concat(w[i].as_str());
            proof {
                reveal_strlit(" ");
            }
            assert(r@ =~= join_words(ws.subrange(0, i + 1)));
        }
        i = i + 1;
    }
    assert(ws.subrange(0, w@.len() as int) == ws);
    r
}

} // verus!
