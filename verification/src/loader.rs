//! Parsing of the textual program representation: a comma-separated list
//! of signed decimal integers.  Reading the text from wherever it lives is
//! the caller's business; the grammar and the numeric values are pinned
//! down here.

use vstd::prelude::*;

verus! {

/// Why a program text was rejected.
#[derive(Clone, Copy, Debug, PartialEq, Eq, Structural)]
pub enum LoadError {
    /// The source of the text could not be read at all.
    Read,
    /// Some comma-separated token is not a machine-word integer.
    Parse,
}

/// Value of a digit string, most significant digit first (empty = 0).
pub open spec fn digits_val(d: Seq<u8>) -> int
    decreases d.len(),
{
    if d.len() == 0 {
        0
    } else {
        digits_val(d.drop_last()) * 10 + (d.last() - 48)
    }
}

/// The digits of a token: everything after an optional leading sign.
pub open spec fn token_digits(t: Seq<u8>) -> Seq<u8> {
    if t.len() > 0 && (t[0] == 43 || t[0] == 45) {
        t.drop_first()
    } else {
        t
    }
}

/// The signed value a token denotes.
pub open spec fn token_val(t: Seq<u8>) -> int {
    if t.len() > 0 && t[0] == 45 {
        -digits_val(token_digits(t))
    } else {
        digits_val(token_digits(t))
    }
}

/// A token is a machine-word integer: an optional sign, then at least one
/// decimal digit and nothing else, denoting a value that fits a word.
pub open spec fn is_int_token(t: Seq<u8>) -> bool {
    &&& token_digits(t).len() > 0
    &&& forall|i: int| 0 <= i < token_digits(t).len() ==> 48 <= #[trigger] token_digits(t)[i] <= 57
    &&& i32::MIN <= token_val(t) <= i32::MAX
}

/// Index of the first comma of `b`, or -1 when there is none.
pub open spec fn first_comma(b: Seq<u8>) -> int
    decreases b.len(),
{
    if b.len() == 0 {
        -1
    } else if b[0] == 44 {
        0
    } else {
        let r = first_comma(b.drop_first());
        if r < 0 {
            -1
        } else {
            r + 1
        }
    }
}

/// The comma-separated tokens of `b`, commas removed.  Text without a
/// comma is a single token, so empty text holds one empty token.
pub open spec fn split_commas(b: Seq<u8>) -> Seq<Seq<u8>>
    decreases b.len(),
{
    let fc = first_comma(b);
    if !(0 <= fc < b.len()) {
        seq![b]
    } else {
        seq![b.take(fc)] + split_commas(b.skip(fc + 1))
    }
}

/// The whole text parses when every token is a machine-word integer.
pub open spec fn text_parses(b: Seq<u8>) -> bool {
    forall|k: int| 0 <= k < split_commas(b).len() ==> is_int_token(#[trigger] split_commas(b)[k])
}

/// The memory a well-formed text denotes: its token values in order.
pub open spec fn parsed_words(b: Seq<u8>) -> Seq<int> {
    split_commas(b).map_values(|t: Seq<u8>| token_val(t))
}

proof fn lemma_first_comma_at(b: Seq<u8>, c: int)
    requires
        0 <= c < b.len(),
        b[c] == 44,
        forall|j: int| 0 <= j < c ==> b[j] != 44,
    ensures
        first_comma(b) == c,
    decreases c,
{
    if c > 0 {
        lemma_first_comma_at(b.drop_first(), c - 1);
    }
}

proof fn lemma_first_comma_none(b: Seq<u8>)
    requires
        forall|j: int| 0 <= j < b.len() ==> b[j] != 44,
    ensures
        first_comma(b) == -1,
    decreases b.len(),
{
    if b.len() > 0 {
        lemma_first_comma_none(b.drop_first());
    }
}

/// A digit string is worth at least as much as any of its prefixes.
proof fn lemma_digits_val_prefix_le(d: Seq<u8>, j: int)
    requires
        0 <= j <= d.len(),
        forall|i: int| 0 <= i < d.len() ==> 48 <= #[trigger] d[i] <= 57,
    ensures
        0 <= digits_val(d.take(j)) <= digits_val(d),
    decreases d.len() - j,
{
    if j == d.len() {
        assert(d.take(j) =~= d);
        lemma_digits_val_nonneg(d);
    } else {
        lemma_digits_val_prefix_le(d, j + 1);
        assert(d.take(j + 1).drop_last() =~= d.take(j));
        assert(digits_val(d.take(j + 1)) == digits_val(d.take(j)) * 10 + (d[j] - 48));
        lemma_digits_val_nonneg(d.take(j));
    }
}

proof fn lemma_digits_val_nonneg(d: Seq<u8>)
    requires
        forall|i: int| 0 <= i < d.len() ==> 48 <= #[trigger] d[i] <= 57,
    ensures
        digits_val(d) >= 0,
    decreases d.len(),
{
    if d.len() > 0 {
        assert(forall|i: int|
            0 <= i < d.drop_last().len() ==> 48 <= #[trigger] d.drop_last()[i] <= 57);
        lemma_digits_val_nonneg(d.drop_last());
    }
}

/// Parses one token as a signed machine-word integer.
#[verifier::loop_isolation(false)]
pub fn parse_token(t: &Vec<u8>) -> (r: Result<i32, LoadError>)
    ensures
        match r {
            Ok(v) => is_int_token(t@) && v as int == token_val(t@),
            Err(e) => e == LoadError::Parse && !is_int_token(t@),
        },
{
    if t.len() == 0 {
        return Err(LoadError::Parse);
    }
    let first = t[0];
    let negative = first == 45;
    let start: usize = if first == 45 || first == 43 {
        1
    } else {
        0
    };
    if t.len() == start {
        return Err(LoadError::Parse);
    }
    let ghost digs = token_digits(t@);
    proof {
        assert(digs =~= t@.subrange(start as int, t@.len() as int));
    }
    let mut acc: i64 = 0;
    let mut i: usize = start;
    while i < t.len()
        invariant
            start <= i <= t.len(),
            forall|j: int| 0 <= j < i - start ==> 48 <= #[trigger] digs[j] <= 57,
            0 <= acc <= 2147483648,
            acc == digits_val(digs.take(i - start)),
        decreases t.len() - i,
    {
        let c = t[i];
        if c < 48 || c > 57 {
            proof {
                if is_int_token(t@) {
                    assert(48 <= token_digits(t@)[i - start] <= 57);
                    assert(false);
                }
            }
            return Err(LoadError::Parse);
        }
        proof {
            assert(digs.take(i + 1 - start).drop_last() =~= digs.take(i - start));
            assert(digs.take(i + 1 - start).last() == c);
        }
        acc = acc * 10 + (c - 48) as i64;
        i = i + 1;
        if acc > 2147483648 {
            proof {
                if is_int_token(t@) {
                    lemma_digits_val_prefix_le(token_digits(t@), i - start);
                    assert(false);
                }
            }
            return Err(LoadError::Parse);
        }
    }
    proof {
        assert(digs.take(i - start) =~= digs);
    }
    if negative {
        Ok((-acc) as i32)
    } else {
        if acc > 2147483647 {
            return Err(LoadError::Parse);
        }
        Ok(acc as i32)
    }
}

/// Parses the comma-separated program text into the initial memory.
/// Exactly the texts whose every token is a machine-word integer are
/// accepted, and the words come out in token order.
#[verifier::loop_isolation(false)]
pub fn parse_program(text: &Vec<u8>) -> (r: Result<Vec<i32>, LoadError>)
    ensures
        match r {
            Ok(v) => text_parses(text@) && v@.len() == split_commas(text@).len() && forall|k: int|
                0 <= k < v@.len() ==> #[trigger] v@[k] as int == parsed_words(text@)[k],
            Err(e) => e == LoadError::Parse && !text_parses(text@),
        },
{
    let mut result: Vec<i32> = Vec::new();
    let mut tok: Vec<u8> = Vec::new();
    let mut start: usize = 0;
    let mut i: usize = 0;
    proof {
        assert(text@.skip(0) =~= text@);
        assert(split_commas(text@).take(0) =~= Seq::<Seq<u8>>::empty());
        assert(split_commas(text@) =~~= Seq::<Seq<u8>>::empty() + split_commas(text@));
    }
    while i < text.len()
        invariant
            start <= i <= text.len(),
            tok@ == text@.subrange(start as int, i as int),
            forall|j: int| start <= j < i ==> text@[j] != 44,
            result@.len() <= split_commas(text@).len(),
            split_commas(text@) =~~= split_commas(text@).take(result@.len() as int)
                + split_commas(text@.skip(start as int)),
            forall|k: int|
                0 <= k < result@.len() ==> is_int_token(#[trigger] split_commas(text@)[k]),
            forall|k: int|
                0 <= k < result@.len() ==> #[trigger] result@[k] as int == token_val(
                    split_commas(text@)[k],
                ),
        decreases text.len() - i,
    {
        let c = text[i];
        if c == 44 {
            let ghost toks = split_commas(text@);
            let ghost rest = text@.skip(start as int);
            let ghost k = result@.len() as int;
            proof {
                lemma_first_comma_at(rest, i - start);
                assert(split_commas(rest) == seq![rest.take(i - start)] + split_commas(
                    rest.skip(i - start + 1),
                ));
                assert(rest.take(i - start) =~= tok@);
                assert(rest.skip(i - start + 1) =~= text@.skip(i + 1));
                assert(toks[k] == split_commas(text@)[k]);
                assert(toks[k] == tok@);
            }
            let v = match parse_token(&tok) {
                Ok(v) => v,
                Err(e) => {
                    proof {
                        if text_parses(text@) {
                            assert(is_int_token(split_commas(text@)[k]));
                            assert(false);
                        }
                    }
                    return Err(e);
                },
            };
            result.push(v);
            tok.clear();
            i = i + 1;
            start = i;
            proof {
                assert(text@.subrange(start as int, i as int) =~= tok@);
                assert(toks.take(k + 1) =~= toks.take(k).push(toks[k]));
                assert(split_commas(text@) =~~= split_commas(text@).take(k + 1)
                    + split_commas(text@.skip(start as int)));
            }
        } else {
            tok.push(c);
            i = i + 1;
        }
    }
    let ghost toks = split_commas(text@);
    let ghost rest = text@.skip(start as int);
    let ghost k = result@.len() as int;
    proof {
        lemma_first_comma_none(rest);
        assert(split_commas(rest) == seq![rest]);
        assert(rest =~= tok@);
        assert(toks[k] == tok@);
        assert(toks.len() == k + 1);
    }
    let v = match parse_token(&tok) {
        Ok(v) => v,
        Err(e) => {
            proof {
                if text_parses(text@) {
                    assert(is_int_token(split_commas(text@)[k]));
                    assert(false);
                }
            }
            return Err(e);
        },
    };
    result.push(v);
    proof {
        assert forall|j: int| 0 <= j < toks.len() implies is_int_token(
            #[trigger] split_commas(text@)[j],
        ) by {
            if j < k {
            } else {
                assert(split_commas(text@)[j] == tok@);
            }
        }
        assert forall|j: int| 0 <= j < result@.len() implies #[trigger] result@[j] as int
            == parsed_words(text@)[j] by {
            if j < k {
            } else {
                assert(split_commas(text@)[j] == tok@);
            }
        }
    }
    Ok(result)
}

} // verus!
