//! Decisions behind the client's screens that do not depend on the drawing library.

use vstd::prelude::*;

use crate::client::state::AppMode;
use crate::text::chars_of;

verus! {

/// A decimal digit character.
pub open spec fn is_digit(c: char) -> bool {
    '0' <= c && c <= '9'
}

/// The value of the decimal digits `ds`.
pub open spec fn digits_value(ds: Seq<char>) -> nat
    decreases ds.len(),
{
    if ds.len() == 0 {
        0
    } else {
        digits_value(ds.drop_last()) * 10 + ((ds.last() as u32) - ('0' as u32)) as nat
    }
}

/// Every character of `ds` is a decimal digit.
pub open spec fn all_digits(ds: Seq<char>) -> bool {
    forall|i: int| 0 <= i < ds.len() ==> is_digit(#[trigger] ds[i])
}

/// `s` without its leading `+`, if it has one.
pub open spec fn without_plus(s: Seq<char>) -> Seq<char> {
    if s.len() > 0 && s[0] == '+' {
        s.drop_first()
    } else {
        s
    }
}

/// What `u16::from_str` accepts: an optional `+`, then one or more decimal digits, whose
/// value fits in 16 bits.
pub open spec fn port_spec(s: Seq<char>) -> Option<u16> {
    let ds = without_plus(s);
    if ds.len() > 0 && all_digits(ds) && digits_value(ds) <= 65535 {
        Some(digits_value(ds) as u16)
    } else {
        None
    }
}

/// The port typed in a port field, if it is one (`str::parse::<u16>`).
pub fn parse_port(text: &str) -> (r: Option<u16>)
    ensures
        r == port_spec(text@),
{
    let cs = chars_of(text);
    let mut start: usize = 0;
    if cs.len() > 0 && cs[0] == '+' {
        start = 1;
    }
    let ghost ds = without_plus(text@);
    proof {
        assert(ds =~= cs@.skip(start as int));
    }
    if start >= cs.len() {
        return None;
    }
    let mut value: u32 = 0;
    let mut i: usize = start;
    while i < cs.len()
        invariant
            cs@ == text@,
            ds == cs@.skip(start as int),
            ds == without_plus(text@),
            start <= i <= cs@.len(),
            start < cs@.len(),
            forall|k: int| start <= k < i ==> is_digit(#[trigger] cs@[k]),
            value == digits_value(cs@.subrange(start as int, i as int)),
            value <= 65535,
        decreases cs@.len() - i,
    {
        let c = cs[i];
        proof {
            assert(cs@.subrange(start as int, i + 1).drop_last() =~= cs@.subrange(start as int, i as int));
        }
        if c < '0' || c > '9' {
            proof {
                assert(!is_digit(ds[i - start]));
            }
            return None;
        }
        let d = (c as u32) - ('0' as u32);
        let next = value * 10 + d;
        if next > 65535 {
            proof {
                assert(digits_value(cs@.subrange(start as int, i + 1)) == next);
                assert(cs@.subrange(start as int, i + 1) =~= ds.take(i + 1 - start));
                if all_digits(ds) {
                    lemma_digits_value_grows(ds, (i + 1 - start) as int);
                }
            }
            return None;
        }
        value = next;
        i = i + 1;
    }
    proof {
        assert(cs@.subrange(start as int, i as int) =~= ds);
    }
    Some(value as u16)
}

/// A longer run of digits is worth at least as much as its prefix.
proof fn lemma_digits_value_grows(ds: Seq<char>, n: int)
    requires
        0 <= n <= ds.len(),
        all_digits(ds),
    ensures
        digits_value(ds.take(n)) <= digits_value(ds),
    decreases ds.len() - n,
{
    if n < ds.len() {
        lemma_digits_value_grows(ds, n + 1);
        assert(ds.take(n + 1).drop_last() =~= ds.take(n));
    } else {
        assert(ds.take(n) =~= ds);
    }
}

/// The name hash behind the colour of a name: over its UTF-8 bytes, `h = (h + b) * 31`,
/// wrapping at 64 bits.
pub open spec fn name_hash(bs: Seq<u8>) -> u64
    decreases bs.len(),
{
    if bs.len() == 0 {
        0
    } else {
        ((((name_hash(bs.drop_last()) as nat + bs.last() as nat) % 0x1_0000_0000_0000_0000) * 31)
            % 0x1_0000_0000_0000_0000) as u64
    }
}

/// Which colour of a palette of `palette_len` colours a name gets.
pub fn name_color_index(name: &str, palette_len: usize) -> (r: usize)
    requires
        palette_len > 0,
    ensures
        r == (name_hash(vstd::utf8::encode_utf8(name@)) as usize) % palette_len,
{
    let bs = name.as_bytes();
    let mut h: u64 = 0;
    let mut i: usize = 0;
    while i < bs.len()
        invariant
            bs@ == vstd::utf8::encode_utf8(name@),
            i <= bs@.len(),
            h == name_hash(bs@.take(i as int)),
        decreases bs@.len() - i,
    {
        proof {
            assert(bs@.take(i + 1).drop_last() =~= bs@.take(i as int));
        }
        h = h.wrapping_add(bs[i] as u64).wrapping_mul(31);
        i = i + 1;
    }
    proof {
        assert(bs@.take(i as int) =~= bs@);
    }
    #[verifier::truncate]
    let idx = h as usize;
    idx % palette_len
}

/// The label of the button of the server tab.
pub fn server_button_label(server_started: bool, mode: AppMode) -> (r: &'static str)
    ensures
        r@ == if server_started && mode == AppMode::Login {
            "Rejoin Chat"@
        } else if server_started {
            "Stop Server"@
        } else {
            "Start Server & Join Chat"@
        },
{
    if server_started && mode == AppMode::Login {
        "Rejoin Chat"
    } else if server_started {
        "Stop Server"
    } else {
        "Start Server & Join Chat"
    }
}

} // verus!
