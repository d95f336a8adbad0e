//! Byte-level lexing for the mesh text format: words, separated fields and
//! unsigned decimal numerals.

use vstd::prelude::*;

verus! {

/// Whitespace as `char::is_whitespace` has it within ASCII.
pub open spec fn is_blank(b: u8) -> bool {
    b == 0x20u8 || b == 0x09u8 || b == 0x0au8 || b == 0x0bu8 || b == 0x0cu8 || b == 0x0du8
}

/// The maximal runs of non-blank bytes of `s`, in order.
pub open spec fn words(s: Seq<u8>) -> Seq<Seq<u8>>
    decreases s.len(),
{
    if s.len() == 0 {
        seq![]
    } else {
        let prev = words(s.drop_last());
        let b = s.last();
        if is_blank(b) {
            prev
        } else if s.len() >= 2 && !is_blank(s[s.len() - 2]) {
            prev.update(prev.len() - 1, prev.last().push(b))
        } else {
            prev.push(seq![b])
        }
    }
}

/// The pieces of `s` between occurrences of `sep`, empty pieces included,
/// as `str::split` gives them.
pub open spec fn pieces(s: Seq<u8>, sep: u8) -> Seq<Seq<u8>>
    decreases s.len(),
{
    if s.len() == 0 {
        seq![seq![]]
    } else {
        let prev = pieces(s.drop_last(), sep);
        if s.last() == sep {
            prev.push(seq![])
        } else {
            prev.update(prev.len() - 1, prev.last().push(s.last()))
        }
    }
}

/// The byte sequences held by a list of byte vectors.
pub open spec fn views_of(v: Seq<Vec<u8>>) -> Seq<Seq<u8>> {
    v.map_values(|w: Vec<u8>| w@)
}

fn is_blank_byte(b: u8) -> (r: bool)
    ensures
        r == is_blank(b),
{
    b == 0x20u8 || b == 0x09u8 || b == 0x0au8 || b == 0x0bu8 || b == 0x0cu8 || b == 0x0du8
}

/// Splits `line` into its whitespace-separated words.
pub fn split_words(line: &[u8]) -> (r: Vec<Vec<u8>>)
    ensures
        views_of(r@) == words(line@),
{
    let mut done: Vec<Vec<u8>> = Vec::new();
    let mut cur: Vec<u8> = Vec::new();
    let mut i: usize = 0;
    while i < line.len()
        invariant
            i <= line.len(),
            (i > 0 && !is_blank(line@[i - 1])) ==> words(line@.take(i as int)) == views_of(
                done@,
            ).push(cur@),
            !(i > 0 && !is_blank(line@[i - 1])) ==> words(line@.take(i as int)) == views_of(
                done@,
            ),
            !(i > 0 && !is_blank(line@[i - 1])) ==> cur@.len() == 0,
        decreases line.len() - i,
    {
        let b = line[i];
        let in_word = i > 0 && !is_blank_byte(line[i - 1]);
        assert(line@.take(i + 1).drop_last() =~= line@.take(i as int));
        assert(line@.take(i + 1).last() == b);
        if is_blank_byte(b) {
            if in_word {
                proof {
                    assert(views_of(done@.push(cur)) =~= views_of(done@).push(cur@));
                }
                done.push(cur);
                cur = Vec::new();
            }
        } else {
            if in_word {
                proof {
                    let prev = views_of(done@).push(cur@);
                    assert(prev.update(prev.len() - 1, prev.last().push(b)) =~= views_of(
                        done@,
                    ).push(cur@.push(b)));
                }
                cur.push(b);
            } else {
                cur.push(b);
                assert(cur@ =~= seq![b]);
            }
        }
        i = i + 1;
    }
    assert(line@.take(i as int) =~= line@);
    if i > 0 && !is_blank_byte(line[i - 1]) {
        proof {
            assert(views_of(done@.push(cur)) =~= views_of(done@).push(cur@));
        }
        done.push(cur);
    }
    done
}

/// Splits `s` at every `sep`, keeping empty pieces.
pub fn split_pieces(s: &[u8], sep: u8) -> (r: Vec<Vec<u8>>)
    ensures
        views_of(r@) == pieces(s@, sep),
{
    let mut done: Vec<Vec<u8>> = Vec::new();
    let mut cur: Vec<u8> = Vec::new();
    let mut i: usize = 0;
    assert(s@.take(0) =~= Seq::<u8>::empty());
    assert(views_of(done@).push(cur@) =~= seq![seq![]]);
    while i < s.len()
        invariant
            i <= s.len(),
            pieces(s@.take(i as int), sep) == views_of(done@).push(cur@),
        decreases s.len() - i,
    {
        let b = s[i];
        assert(s@.take(i + 1).drop_last() =~= s@.take(i as int));
        assert(s@.take(i + 1).last() == b);
        if b == sep {
            proof {
                assert(views_of(done@.push(cur)).push(Seq::<u8>::empty()) =~= views_of(done@).push(
                    cur@,
                ).push(seq![]));
            }
            done.push(cur);
            cur = Vec::new();
            assert(cur@ =~= Seq::<u8>::empty());
        } else {
            proof {
                let prev = views_of(done@).push(cur@);
                assert(prev.update(prev.len() - 1, prev.last().push(b)) =~= views_of(done@).push(
                    cur@.push(b),
                ));
            }
            cur.push(b);
        }
        i = i + 1;
    }
    assert(s@.take(i as int) =~= s@);
    proof {
        assert(views_of(done@.push(cur)) =~= views_of(done@).push(cur@));
    }
    done.push(cur);
    done
}

pub open spec fn is_digit(b: u8) -> bool {
    0x30u8 <= b && b <= 0x39u8
}

/// The value of a run of decimal digits, most significant first.
pub open spec fn digits_value(d: Seq<u8>) -> nat
    decreases d.len(),
{
    if d.len() == 0 {
        0
    } else {
        digits_value(d.drop_last()) * 10 + (d.last() - 0x30u8) as nat
    }
}

/// The digits of an unsigned decimal numeral: an optional leading `+` is
/// not part of them.
pub open spec fn numeral_digits(s: Seq<u8>) -> Seq<u8> {
    if s.len() > 0 && s[0] == 0x2bu8 {
        s.drop_first()
    } else {
        s
    }
}

/// `s` is an unsigned decimal numeral: an optional `+`, then one or more digits.
pub open spec fn is_numeral(s: Seq<u8>) -> bool {
    let d = numeral_digits(s);
    d.len() > 0 && forall|i: int| 0 <= i < d.len() ==> is_digit(#[trigger] d[i])
}

/// What `str::parse::<usize>` makes of `s`.
pub open spec fn usize_of(s: Seq<u8>) -> Option<usize> {
    if is_numeral(s) && digits_value(numeral_digits(s)) <= usize::MAX {
        Some(digits_value(numeral_digits(s)) as usize)
    } else {
        None
    }
}

proof fn lemma_digits_prefix(d: Seq<u8>, i: int)
    requires
        0 <= i <= d.len(),
        forall|k: int| 0 <= k < d.len() ==> is_digit(#[trigger] d[k]),
    ensures
        digits_value(d.take(i)) <= digits_value(d),
    decreases d.len() - i,
{
    if i < d.len() {
        assert(d.take(i + 1).drop_last() =~= d.take(i));
        lemma_digits_prefix(d, i + 1);
    } else {
        assert(d.take(i) =~= d);
    }
}

/// Reads an unsigned decimal numeral as `str::parse::<usize>` does.
pub fn parse_usize(s: &[u8]) -> (r: Option<usize>)
    ensures
        r == usize_of(s@),
{
    let start: usize = if s.len() > 0 && s[0] == 0x2bu8 {
        1
    } else {
        0
    };
    let ghost d = numeral_digits(s@);
    assert(d =~= s@.subrange(start as int, s@.len() as int));
    if start == s.len() {
        return None;
    }
    let mut value: usize = 0;
    let mut i: usize = start;
    assert(d.take(0) =~= Seq::<u8>::empty());
    while i < s.len()
        invariant
            start <= i <= s.len(),
            d == numeral_digits(s@),
            d =~= s@.subrange(start as int, s@.len() as int),
            value as nat == digits_value(d.take(i - start)),
            forall|k: int| 0 <= k < i - start ==> is_digit(#[trigger] d[k]),
        decreases s.len() - i,
    {
        let b = s[i];
        if b < 0x30u8 || b > 0x39u8 {
            assert(!is_digit(d[i - start]));
            assert(!is_numeral(s@));
            return None;
        }
        assert(d.take(i - start + 1).drop_last() =~= d.take(i - start));
        let digit: usize = (b - 0x30u8) as usize;
        match value.checked_mul(10) {
            Some(tens) => match tens.checked_add(digit) {
                Some(next) => {
                    value = next;
                },
                None => {
                    proof {
                        if is_numeral(s@) {
                            lemma_digits_prefix(d, i - start + 1);
                        }
                    }
                    return None;
                },
            },
            None => {
                proof {
                    if is_numeral(s@) {
                        lemma_digits_prefix(d, i - start + 1);
                    }
                }
                return None;
            },
        }
        i = i + 1;
    }
    assert(d.take(i - start) =~= d);
    Some(value)
}

} // verus!
