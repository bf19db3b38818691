//! N-gram construction: from an ordered token sequence to comma-joined
//! n-gram strings, one per token position.
//!
//! The index of each component is taken modulo `size` (not modulo the token
//! count), so for positions at `size` and beyond the window wraps around the
//! low end of the token sequence instead of sliding; this wrap-around is the
//! intended behaviour and is stated exactly by `ngram_at`.

use vstd::prelude::*;

use crate::strbuf::{push_char, push_str};
use crate::tokenizer::{is_token_char, valid_token};

verus! {

/// The characters of `parts` joined with a single comma between neighbours.
pub open spec fn join_comma(parts: Seq<Seq<char>>) -> Seq<char>
    decreases parts.len(),
{
    if parts.len() == 0 {
        Seq::empty()
    } else if parts.len() == 1 {
        parts[0]
    } else {
        join_comma(parts.drop_last()) + seq![','] + parts.last()
    }
}

/// The components of the n-gram that starts at `pos`: `size` tokens read at
/// indices `(pos + m) % size` for `m` in `0 .. size`.
pub open spec fn ngram_parts(data: Seq<Seq<char>>, size: int, pos: int) -> Seq<Seq<char>> {
    Seq::new(size as nat, |m: int| data[(pos + m) % size])
}

/// The n-gram string for position `pos`: the single token there when
/// `size == 1`, and the comma-joined wrap-around window otherwise.
pub open spec fn ngram_at(data: Seq<Seq<char>>, size: int, pos: int) -> Seq<char> {
    if size == 1 {
        data[pos]
    } else {
        join_comma(ngram_parts(data, size, pos))
    }
}

/// All n-grams of the token sequence: one per token position, so always
/// exactly as many n-grams as tokens.
pub open spec fn ngrams_seq(data: Seq<Seq<char>>, size: int) -> Seq<Seq<char>> {
    Seq::new(data.len(), |pos: int| ngram_at(data, size, pos))
}

/// How many commas a string holds; the comma is the n-gram separator, so
/// this counts separators.
pub open spec fn comma_count(s: Seq<char>) -> int
    decreases s.len(),
{
    if s.len() == 0 {
        0
    } else {
        (if s[0] == ',' {
            1int
        } else {
            0int
        }) + comma_count(s.drop_first())
    }
}

proof fn lemma_comma_count_add(a: Seq<char>, b: Seq<char>)
    ensures
        comma_count(a + b) == comma_count(a) + comma_count(b),
    decreases a.len(),
{
    if a.len() == 0 {
        assert(a + b =~= b);
    } else {
        assert((a + b).drop_first() =~= a.drop_first() + b);
        assert((a + b)[0] == a[0]);
        lemma_comma_count_add(a.drop_first(), b);
    }
}

/// A well-formed token holds no comma: the comma is not a token character.
pub proof fn lemma_token_no_comma(t: Seq<char>)
    requires
        forall|i: int| 0 <= i < t.len() ==> is_token_char(#[trigger] t[i]),
    ensures
        comma_count(t) == 0,
    decreases t.len(),
{
    if t.len() > 0 {
        assert(!is_token_char(','));
        assert(t[0] != ',');
        assert(forall|i: int|
            0 <= i < t.drop_first().len() ==> is_token_char(#[trigger] t.drop_first()[i]));
        lemma_token_no_comma(t.drop_first());
    }
}

proof fn lemma_join_comma_count(parts: Seq<Seq<char>>)
    requires
        parts.len() >= 1,
        forall|i: int| 0 <= i < parts.len() ==> comma_count(#[trigger] parts[i]) == 0,
    ensures
        comma_count(join_comma(parts)) == parts.len() - 1,
    decreases parts.len(),
{
    if parts.len() == 1 {
    } else {
        assert(forall|i: int|
            0 <= i < parts.drop_last().len() ==> comma_count(#[trigger] parts.drop_last()[i])
                == 0);
        lemma_join_comma_count(parts.drop_last());
        lemma_comma_count_add(join_comma(parts.drop_last()), seq![',']);
        lemma_comma_count_add(join_comma(parts.drop_last()) + seq![','], parts.last());
        assert(seq![','].drop_first() =~= Seq::<char>::empty());
        assert(comma_count(Seq::<char>::empty()) == 0);
        assert(seq![','][0] == ',');
        assert(comma_count(seq![',']) == 1);
    }
}

/// With `size == 1` there are exactly as many n-grams as tokens, each n-gram
/// is exactly one token, and none holds a comma.
pub proof fn lemma_ngrams_size_one(data: Seq<Seq<char>>)
    requires
        data.len() > 0,
        forall|i: int| 0 <= i < data.len() ==> valid_token(#[trigger] data[i]),
    ensures
        ngrams_seq(data, 1).len() == data.len(),
        forall|pos: int| 0 <= pos < data.len() ==> #[trigger] ngrams_seq(data, 1)[pos]
            == data[pos],
        forall|pos: int| 0 <= pos < data.len() ==> comma_count(
            #[trigger] ngrams_seq(data, 1)[pos],
        ) == 0,
{
    assert forall|pos: int| 0 <= pos < data.len() implies comma_count(
        #[trigger] ngrams_seq(data, 1)[pos],
    ) == 0 by {
        lemma_token_no_comma(data[pos]);
    }
}

/// With `size > 1` every produced n-gram string holds exactly `size - 1`
/// comma separators.
pub proof fn lemma_ngram_comma_separators(data: Seq<Seq<char>>, size: int)
    requires
        2 <= size <= data.len(),
        forall|i: int| 0 <= i < data.len() ==> valid_token(#[trigger] data[i]),
    ensures
        forall|pos: int| 0 <= pos < data.len() ==> comma_count(
            #[trigger] ngrams_seq(data, size)[pos],
        ) == size - 1,
{
    assert forall|pos: int| 0 <= pos < data.len() implies comma_count(
        #[trigger] ngrams_seq(data, size)[pos],
    ) == size - 1 by {
        let parts = ngram_parts(data, size, pos);
        assert forall|m: int| 0 <= m < parts.len() implies comma_count(#[trigger] parts[m])
            == 0 by {
            assert(0 <= (pos + m) % size < size);
            assert(parts[m] == data[(pos + m) % size]);
            lemma_token_no_comma(data[(pos + m) % size]);
        }
        lemma_join_comma_count(parts);
    }
}

/// A token count equal to `size` passes validation and yields exactly `size`
/// n-grams, not zero: there is one n-gram per token position.
pub proof fn lemma_ngram_count_at_boundary(data: Seq<Seq<char>>, size: int)
    requires
        size >= 1,
        data.len() == size,
    ensures
        ngrams_seq(data, size).len() == size,
        ngrams_seq(data, size).len() > 0,
{
}

/// Joins the parts with commas, as `join_comma` states.
fn join_commas(parts: &Vec<String>) -> (r: String)
    ensures
        r@ == join_comma(parts.deep_view()),
{
    let mut r = String::new();
    let mut i: usize = 0;
    while i < parts.len()
        invariant
            i <= parts.len(),
            r@ =~= join_comma(parts.deep_view().take(i as int)),
        decreases parts.len() - i,
    {
        if i > 0 {
            push_char(&mut r, ',');
        }
        push_str(&mut r, parts[i].as_str());
        proof {
            assert(parts.deep_view().take(i + 1).drop_last() =~= parts.deep_view().take(i as int));
            assert(parts.deep_view().take(i + 1).last() == parts@[i as int]@);
        }
        i += 1;
    }
    proof {
        assert(parts.deep_view().take(parts@.len() as int) =~= parts.deep_view());
    }
    r
}

/// Builds one n-gram string per position of `data`, of `size` comma-joined
/// tokens each, with component indices wrapping modulo `size`.
pub fn create_ngrams(data: Vec<String>, data_size: i32, size: i32) -> (ngrams: Vec<String>)
    requires
        data_size as int == data@.len(),
        1 <= (size as int) <= (data_size as int),
    ensures
        ngrams.deep_view() == ngrams_seq(data.deep_view(), size as int),
        ngrams@.len() == data@.len(),
{
    let mut ngrams: Vec<String> = Vec::new();

    let mut pos: i32 = 0;
    while pos < data_size
        invariant
            data_size as int == data@.len(),
            1 <= (size as int) <= (data_size as int),
            0 <= (pos as int) <= (data_size as int),
            ngrams@.len() == pos as int,
            ngrams.deep_view() =~= ngrams_seq(data.deep_view(), size as int).take(pos as int),
        decreases data_size as int - pos as int,
    {
        let mut entry: Vec<String> = Vec::new();
        if size > 1 {
            let mut modifier: i32 = 0;
            while modifier < size
                invariant
                    data_size as int == data@.len(),
                    1 < (size as int) <= (data_size as int),
                    0 <= (pos as int) < (data_size as int),
                    0 <= (modifier as int) <= (size as int),
                    entry.deep_view() =~= ngram_parts(data.deep_view(), size as int, pos as int)
                        .take(modifier as int),
                decreases size as int - modifier as int,
            {
                let index = ((pos as i64 + modifier as i64) % (size as i64)) as usize;
                proof {
                    assert(0 <= ((pos as int + modifier as int) % (size as int)) < (size as int));
                    assert(index as int == (pos as int + modifier as int) % (size as int));
                }
                let ghost before = entry.deep_view();
                entry.push(data[index].clone());
                proof {
                    assert(entry.deep_view() =~= before.push(data@[index as int]@));
                    assert(ngram_parts(data.deep_view(), size as int, pos as int).take(
                        modifier + 1,
                    ) =~= before.push(data.deep_view()[(pos as int + modifier as int) % (
                    size as int)]));
                }
                modifier += 1;
            }
            proof {
                assert(ngram_parts(data.deep_view(), size as int, pos as int).take(size as int)
                    =~= ngram_parts(data.deep_view(), size as int, pos as int));
            }
        } else {
            let ghost before = entry.deep_view();
            entry.push(data[pos as usize].clone());
            proof {
                assert(entry.deep_view() =~= before.push(data@[pos as int]@));
            }
        }
        let joined = join_commas(&entry);
        let ghost before = ngrams.deep_view();
        ngrams.push(joined);
        proof {
            if size == 1 {
                assert(entry.deep_view() =~= seq![data.deep_view()[pos as int]]);
                assert(join_comma(entry.deep_view()) == ngram_at(
                    data.deep_view(),
                    size as int,
                    pos as int,
                ));
            }
            assert(ngrams.deep_view() =~= before.push(
                ngram_at(data.deep_view(), size as int, pos as int),
            ));
            assert(ngrams.deep_view() =~= ngrams_seq(data.deep_view(), size as int).take(
                pos as int + 1,
            ));
        }
        pos += 1;
    }
    proof {
        assert(ngrams_seq(data.deep_view(), size as int).take(data@.len() as int) =~= ngrams_seq(
            data.deep_view(),
            size as int,
        ));
    }
    ngrams
}

} // verus!

