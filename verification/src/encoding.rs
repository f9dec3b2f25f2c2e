use vstd::prelude::*;

verus! {

/// The character for one digit value, lowercase for ten and above.
pub open spec fn digit_char(n: u8) -> char {
    if n == 0 {
        '0'
    } else if n == 1 {
        '1'
    } else if n == 2 {
        '2'
    } else if n == 3 {
        '3'
    } else if n == 4 {
        '4'
    } else if n == 5 {
        '5'
    } else if n == 6 {
        '6'
    } else if n == 7 {
        '7'
    } else if n == 8 {
        '8'
    } else if n == 9 {
        '9'
    } else if n == 10 {
        'a'
    } else if n == 11 {
        'b'
    } else if n == 12 {
        'c'
    } else if n == 13 {
        'd'
    } else if n == 14 {
        'e'
    } else {
        'f'
    }
}

/// The digit value of a hex character, if it is one.
pub open spec fn nibble_of(c: char) -> Option<u8> {
    match c {
        '0' => Some(0u8),
        '1' => Some(1u8),
        '2' => Some(2u8),
        '3' => Some(3u8),
        '4' => Some(4u8),
        '5' => Some(5u8),
        '6' => Some(6u8),
        '7' => Some(7u8),
        '8' => Some(8u8),
        '9' => Some(9u8),
        'a' => Some(10u8),
        'b' => Some(11u8),
        'c' => Some(12u8),
        'd' => Some(13u8),
        'e' => Some(14u8),
        'f' => Some(15u8),
        _ => None,
    }
}

pub open spec fn is_hex_char(c: char) -> bool {
    nibble_of(c) is Some
}

/// Lowercase hex encoding, two characters per byte.
pub open spec fn hex_seq(bs: Seq<u8>) -> Seq<char>
    decreases bs.len(),
{
    if bs.len() == 0 {
        Seq::empty()
    } else {
        seq![digit_char(bs[0] / 16), digit_char(bs[0] % 16)] + hex_seq(bs.drop_first())
    }
}

pub open spec fn is_hex_seq(s: Seq<char>) -> bool {
    forall|i: int| 0 <= i < s.len() ==> is_hex_char(#[trigger] s[i])
}

/// The bytes a hex character sequence denotes, two characters per byte.
pub open spec fn unhex_seq(s: Seq<char>) -> Seq<u8>
    decreases s.len(),
{
    if s.len() < 2 {
        Seq::empty()
    } else {
        seq![(nibble_of(s[0]).unwrap_or(0) * 16 + nibble_of(s[1]).unwrap_or(0)) as u8]
            + unhex_seq(s.skip(2))
    }
}

/// Decimal notation of a number, no leading zeros.
pub open spec fn dec_seq(n: nat) -> Seq<char>
    decreases n,
{
    if n < 10 {
        seq![digit_char(n as u8)]
    } else {
        dec_seq(n / 10) + seq![digit_char((n % 10) as u8)]
    }
}

/// Hex encoding always yields hex characters, two per byte, and decodes back
/// to the bytes it came from.
pub proof fn lemma_hex_round_trip(bs: Seq<u8>)
    ensures
        hex_seq(bs).len() == 2 * bs.len(),
        is_hex_seq(hex_seq(bs)),
        unhex_seq(hex_seq(bs)) == bs,
    decreases bs.len(),
{
    if bs.len() == 0 {
        assert(unhex_seq(hex_seq(bs)) =~= bs);
    } else {
        lemma_hex_round_trip(bs.drop_first());
        let b = bs[0];
        assert(b / 16 < 16 && b % 16 < 16);
        assert(nibble_of(digit_char(b / 16)) == Some(b / 16));
        assert(nibble_of(digit_char(b % 16)) == Some(b % 16));
        assert(hex_seq(bs).skip(2) =~= hex_seq(bs.drop_first()));
        assert((b / 16) * 16 + (b % 16) == b) by {
            assert(b == 16 * (b / 16) + b % 16);
        }
        assert(unhex_seq(hex_seq(bs)) =~= bs);
        assert forall|i: int| 0 <= i < hex_seq(bs).len() implies is_hex_char(
            #[trigger] hex_seq(bs)[i],
        ) by {
            if i >= 2 {
                assert(hex_seq(bs)[i] == hex_seq(bs.drop_first())[i - 2]);
            }
        }
    }
}

/// Hex decoding yields one byte per two characters.
pub proof fn lemma_unhex_len(s: Seq<char>)
    ensures
        unhex_seq(s).len() == s.len() / 2,
    decreases s.len(),
{
    if s.len() < 2 {
    } else {
        lemma_unhex_len(s.skip(2));
    }
}

/// Decoding a snoc of two hex characters appends one byte.
pub proof fn lemma_unhex_snoc(s: Seq<char>, c1: char, c2: char)
    requires
        s.len() % 2 == 0,
    ensures
        unhex_seq(s + seq![c1, c2]) == unhex_seq(s) + seq![
            (nibble_of(c1).unwrap_or(0) * 16 + nibble_of(c2).unwrap_or(0)) as u8,
        ],
    decreases s.len(),
{
    if s.len() == 0 {
        reveal_with_fuel(unhex_seq, 3);
        assert(s + seq![c1, c2] =~= seq![c1, c2]);
        assert(seq![c1, c2].skip(2) =~= Seq::<char>::empty());
        assert(unhex_seq(s + seq![c1, c2]) =~= unhex_seq(s) + seq![
            (nibble_of(c1).unwrap_or(0) * 16 + nibble_of(c2).unwrap_or(0)) as u8,
        ]);
    } else {
        let t = seq![c1, c2];
        let b = seq![(nibble_of(c1).unwrap_or(0) * 16 + nibble_of(c2).unwrap_or(0)) as u8];
        let b0 = seq![(nibble_of(s[0]).unwrap_or(0) * 16 + nibble_of(s[1]).unwrap_or(0)) as u8];
        lemma_unhex_snoc(s.skip(2), c1, c2);
        assert((s + t).skip(2) =~= s.skip(2) + t);
        assert(unhex_seq(s + t) == b0 + (unhex_seq(s.skip(2)) + b));
        assert(b0 + (unhex_seq(s.skip(2)) + b) =~= (b0 + unhex_seq(s.skip(2))) + b);
    }
}

/// Append the character of one digit value.
fn push_digit(out: &mut String, n: u8)
    requires
        n < 16,
    ensures
        final(out)@ == old(out)@ + seq![digit_char(n)],
{
    proof {
        reveal_strlit("0");
        reveal_strlit("1");
        reveal_strlit("2");
        reveal_strlit("3");
        reveal_strlit("4");
        reveal_strlit("5");
        reveal_strlit("6");
        reveal_strlit("7");
        reveal_strlit("8");
        reveal_strlit("9");
        reveal_strlit("a");
        reveal_strlit("b");
        reveal_strlit("c");
        reveal_strlit("d");
        reveal_strlit("e");
        reveal_strlit("f");
    }
    if n == 0 {
        out.append("0");
    } else if n == 1 {
        out.append("1");
    } else if n == 2 {
        out.append("2");
    } else if n == 3 {
        out.append("3");
    } else if n == 4 {
        out.append("4");
    } else if n == 5 {
        out.append("5");
    } else if n == 6 {
        out.append("6");
    } else if n == 7 {
        out.append("7");
    } else if n == 8 {
        out.append("8");
    } else if n == 9 {
        out.append("9");
    } else if n == 10 {
        out.append("a");
    } else if n == 11 {
        out.append("b");
    } else if n == 12 {
        out.append("c");
    } else if n == 13 {
        out.append("d");
    } else if n == 14 {
        out.append("e");
    } else {
        out.append("f");
    }
    proof {
        assert(final(out)@ =~= old(out)@ + seq![digit_char(n)]);
    }
}

/// Append the lowercase hex encoding of the bytes.
pub fn append_hex(out: &mut String, bs: &Vec<u8>)
    ensures
        final(out)@ == old(out)@ + hex_seq(bs@),
{
    let mut i: usize = 0;
    while i < bs.len()
        invariant
            0 <= i <= bs@.len(),
            out@ == old(out)@ + hex_seq(bs@.take(i as int)),
        decreases bs@.len() - i,
    {
        let b = bs[i];
        push_digit(out, b / 16);
        push_digit(out, b % 16);
        proof {
            lemma_hex_snoc(bs@.take(i as int), bs@[i as int]);
            assert(bs@.take(i as int).push(bs@[i as int]) =~= bs@.take(i + 1));
        }
        i += 1;
    }
    proof {
        assert(bs@.take(bs@.len() as int) =~= bs@);
    }
}

/// Encoding a snoc of one byte appends its two hex characters.
proof fn lemma_hex_snoc(bs: Seq<u8>, b: u8)
    ensures
        hex_seq(bs.push(b)) == hex_seq(bs) + seq![digit_char(b / 16), digit_char(b % 16)],
    decreases bs.len(),
{
    if bs.len() == 0 {
        reveal_with_fuel(hex_seq, 3);
        assert(bs.push(b) =~= seq![b]);
        assert(seq![b].drop_first() =~= Seq::<u8>::empty());
        assert(hex_seq(bs.push(b)) =~= hex_seq(bs) + seq![
            digit_char(b / 16),
            digit_char(b % 16),
        ]);
    } else {
        let d = seq![digit_char(b / 16), digit_char(b % 16)];
        let h0 = seq![digit_char(bs[0] / 16), digit_char(bs[0] % 16)];
        lemma_hex_snoc(bs.drop_first(), b);
        assert(bs.push(b).drop_first() =~= bs.drop_first().push(b));
        assert(hex_seq(bs.push(b)) == h0 + (hex_seq(bs.drop_first()) + d));
        assert(h0 + (hex_seq(bs.drop_first()) + d) =~= (h0 + hex_seq(bs.drop_first())) + d);
    }
}

/// Append the decimal notation of a number.
pub fn append_dec(out: &mut String, n: u64)
    ensures
        final(out)@ == old(out)@ + dec_seq(n as nat),
    decreases n,
{
    if n >= 10 {
        append_dec(out, n / 10);
    }
    push_digit(out, (n % 10) as u8);
}

/// The digit value of a hex character, or none.
pub fn hex_val(c: char) -> (r: Option<u8>)
    ensures
        r == nibble_of(c),
{
    match c {
        '0' => Some(0u8),
        '1' => Some(1u8),
        '2' => Some(2u8),
        '3' => Some(3u8),
        '4' => Some(4u8),
        '5' => Some(5u8),
        '6' => Some(6u8),
        '7' => Some(7u8),
        '8' => Some(8u8),
        '9' => Some(9u8),
        'a' => Some(10u8),
        'b' => Some(11u8),
        'c' => Some(12u8),
        'd' => Some(13u8),
        'e' => Some(14u8),
        'f' => Some(15u8),
        _ => None,
    }
}

/// Decode the hex characters of `s` between `from` and `to` to bytes.
/// Succeeds exactly when the range is well formed: every character a hex
/// digit and their number even.
pub fn parse_hex_range(s: &str, from: usize, to: usize) -> (r: Option<Vec<u8>>)
    requires
        from <= to <= s@.len(),
    ensures
        match r {
            Some(v) => is_hex_seq(s@.subrange(from as int, to as int)) && (to - from) % 2 == 0
                && v@ == unhex_seq(s@.subrange(from as int, to as int)),
            None => !(is_hex_seq(s@.subrange(from as int, to as int)) && (to - from) % 2 == 0),
        },
{
    if (to - from) % 2 != 0 {
        // an odd range cannot be all pairs; find no witness, just refuse
        return None;
    }
    let mut v: Vec<u8> = Vec::new();
    let mut i: usize = from;
    while i < to
        invariant
            from <= i <= to <= s@.len(),
            (to - from) % 2 == 0,
            (i - from) % 2 == 0,
            is_hex_seq(s@.subrange(from as int, i as int)),
            v@ == unhex_seq(s@.subrange(from as int, i as int)),
        decreases to - i,
    {
        let c1 = s.get_char(i);
        let c2 = s.get_char(i + 1);
        let n1 = match hex_val(c1) {
            Some(n) => n,
            None => {
                proof {
                    assert(s@.subrange(from as int, to as int)[i - from] == c1);
                }
                return None;
            },
        };
        let n2 = match hex_val(c2) {
            Some(n) => n,
            None => {
                proof {
                    assert(s@.subrange(from as int, to as int)[i + 1 - from] == c2);
                }
                return None;
            },
        };
        v.push(n1 * 16 + n2);
        proof {
            lemma_unhex_snoc(s@.subrange(from as int, i as int), c1, c2);
            assert(s@.subrange(from as int, i as int) + seq![c1, c2] =~= s@.subrange(
                from as int,
                i + 2,
            ));
            assert forall|j: int| 0 <= j < i + 2 - from implies is_hex_char(
                #[trigger] s@.subrange(from as int, i + 2)[j],
            ) by {
                if j < i - from {
                    assert(s@.subrange(from as int, i + 2)[j] == s@.subrange(
                        from as int,
                        i as int,
                    )[j]);
                }
            }
        }
        i += 2;
    }
    proof {
        assert(s@.subrange(from as int, i as int) =~= s@.subrange(from as int, to as int));
    }
    Some(v)
}

/// Whether `pat` occurs in `s` starting at position `i`.
pub fn match_at(s: &str, i: usize, pat: &str) -> (r: bool)
    requires
        i <= s@.len(),
    ensures
        r == (i + pat@.len() <= s@.len() && s@.subrange(i as int, i + pat@.len()) == pat@),
{
    let pl = pat.unicode_len();
    let sl = s.unicode_len();
    if pl > sl - i {
        return false;
    }
    let mut j: usize = 0;
    while j < pl
        invariant
            0 <= j <= pl == pat@.len(),
            i + pl <= sl == s@.len(),
            forall|k: int| 0 <= k < j ==> s@[i + k] == pat@[k],
        decreases pl - j,
    {
        if s.get_char(i + j) != pat.get_char(j) {
            proof {
                assert(s@.subrange(i as int, i + pat@.len())[j as int] != pat@[j as int]);
            }
            return false;
        }
        j += 1;
    }
    proof {
        assert(s@.subrange(i as int, i + pat@.len()) =~= pat@);
    }
    true
}

} // verus!
