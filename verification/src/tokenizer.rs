//! Tokenization: turning the lines of a text into word tokens.
//!
//! A token is a maximal run of characters that are alphanumeric or the
//! apostrophe; every other character (the space included) separates tokens,
//! and so does a line boundary.

use vstd::prelude::*;
use vstd::string::StrSliceExecFns;

use crate::strbuf::push_char;

verus! {

/// Whether an ASCII character counts as alphanumeric: a latin letter or a
/// decimal digit.
pub open spec fn ascii_alphanumeric(c: char) -> bool {
    ('a' as u32 <= c as u32 && c as u32 <= 'z' as u32)
    || ('A' as u32 <= c as u32 && c as u32 <= 'Z' as u32)
    || ('0' as u32 <= c as u32 && c as u32 <= '9' as u32)
}

/// Whether a character beyond ASCII counts as alphanumeric under Unicode.
/// The full Unicode classification is not spelled out here; tokenization is
/// proved correct for whichever classification the standard library applies.
pub uninterp spec fn unicode_alphanumeric(c: char) -> bool;

/// Whether a character counts as alphanumeric: exact on ASCII, and given by
/// the standard library's Unicode tables beyond it.
pub open spec fn alphanumeric(c: char) -> bool {
    if (c as u32) < 128 {
        ascii_alphanumeric(c)
    } else {
        unicode_alphanumeric(c)
    }
}

/// Relies on char::is_alphanumeric: true exactly on characters that are
/// alphabetic or numeric under Unicode, which on the ASCII range are the
/// latin letters and the decimal digits, and which depends on the character
/// alone.
#[verifier::external_body]
fn char_alphanumeric(c: char) -> (r: bool)
    ensures
        (c as u32) < 128 ==> r == ascii_alphanumeric(c),
        (c as u32) >= 128 ==> r == unicode_alphanumeric(c),
{
    c.is_alphanumeric()
}

/// Whether a character belongs inside a token: alphanumeric or apostrophe.
pub open spec fn is_token_char(c: char) -> bool {
    alphanumeric(c) || c == '\''
}

/// Decides `is_token_char`.
pub fn token_char(c: char) -> (r: bool)
    ensures
        r == is_token_char(c),
{
    char_alphanumeric(c) || c == '\''
}

/// A well-formed token: non-empty and made of token characters only.
pub open spec fn valid_token(t: Seq<char>) -> bool {
    &&& t.len() > 0
    &&& forall|i: int| 0 <= i < t.len() ==> is_token_char(#[trigger] t[i])
}

/// The tokens of the remaining text `s`, given the token characters `cur`
/// gathered immediately before `s`: a non-token character, or the end of the
/// text, closes the gathered token.
pub open spec fn tokens_from(s: Seq<char>, cur: Seq<char>) -> Seq<Seq<char>>
    decreases s.len(),
{
    if s.len() == 0 {
        if cur.len() == 0 {
            Seq::empty()
        } else {
            seq![cur]
        }
    } else if is_token_char(s[0]) {
        tokens_from(s.drop_first(), cur.push(s[0]))
    } else if cur.len() == 0 {
        tokens_from(s.drop_first(), cur)
    } else {
        seq![cur] + tokens_from(s.drop_first(), Seq::empty())
    }
}

/// The tokens of one line: its maximal runs of token characters, in order.
pub open spec fn line_tokens(s: Seq<char>) -> Seq<Seq<char>> {
    tokens_from(s, Seq::empty())
}

/// The tokens of a whole text, line by line; a line boundary closes a token
/// just as a space does.
pub open spec fn file_tokens(lines: Seq<Seq<char>>) -> Seq<Seq<char>>
    decreases lines.len(),
{
    if lines.len() == 0 {
        Seq::empty()
    } else {
        file_tokens(lines.drop_last()) + line_tokens(lines.last())
    }
}

proof fn lemma_tokens_from_valid(s: Seq<char>, cur: Seq<char>)
    requires
        forall|i: int| 0 <= i < cur.len() ==> is_token_char(#[trigger] cur[i]),
    ensures
        forall|k: int|
            0 <= k < tokens_from(s, cur).len() ==> valid_token(#[trigger] tokens_from(s, cur)[k]),
    decreases s.len(),
{
    if s.len() == 0 {
        if cur.len() > 0 {
            assert(tokens_from(s, cur) == seq![cur]);
            assert(tokens_from(s, cur)[0] == cur);
            assert(valid_token(cur));
        }
    } else if is_token_char(s[0]) {
        assert(forall|i: int|
            0 <= i < cur.push(s[0]).len() ==> is_token_char(#[trigger] cur.push(s[0])[i]));
        lemma_tokens_from_valid(s.drop_first(), cur.push(s[0]));
        assert(tokens_from(s, cur) == tokens_from(s.drop_first(), cur.push(s[0])));
    } else if cur.len() == 0 {
        lemma_tokens_from_valid(s.drop_first(), cur);
        assert(tokens_from(s, cur) == tokens_from(s.drop_first(), cur));
    } else {
        lemma_tokens_from_valid(s.drop_first(), Seq::empty());
        assert forall|k: int| 0 <= k < tokens_from(s, cur).len() implies valid_token(
            #[trigger] tokens_from(s, cur)[k],
        ) by {
            if k == 0 {
                assert(tokens_from(s, cur)[0] == cur);
            } else {
                assert(tokens_from(s, cur)[k] == tokens_from(s.drop_first(), Seq::empty())[k - 1]);
            }
        }
    }
}

/// Every token that tokenization yields is well formed: non-empty and made
/// of token characters only.
pub proof fn lemma_file_tokens_valid(lines: Seq<Seq<char>>)
    ensures
        forall|k: int|
            0 <= k < file_tokens(lines).len() ==> valid_token(#[trigger] file_tokens(lines)[k]),
    decreases lines.len(),
{
    if lines.len() > 0 {
        lemma_file_tokens_valid(lines.drop_last());
        lemma_tokens_from_valid(lines.last(), Seq::empty());
        assert forall|k: int| 0 <= k < file_tokens(lines).len() implies valid_token(
            #[trigger] file_tokens(lines)[k],
        ) by {
            let head = file_tokens(lines.drop_last());
            if k < head.len() {
                assert(file_tokens(lines)[k] == head[k]);
            } else {
                assert(file_tokens(lines)[k] == line_tokens(lines.last())[k - head.len()]);
            }
        }
    }
}

/// Tokenization is a pure function of the text: the same lines always give
/// the same token sequence.
pub proof fn lemma_tokenize_deterministic(a: Seq<Seq<char>>, b: Seq<Seq<char>>)
    requires
        a == b,
    ensures
        file_tokens(a) == file_tokens(b),
{
}

/// Appends the tokens of one line to `tokens`.
fn tokenize_line(line: &String, tokens: &mut Vec<String>)
    ensures
        final(tokens).deep_view() == old(tokens).deep_view() + line_tokens(line@),
{
    let n = line.as_str().unicode_len();
    let mut cur = String::new();
    let mut i: usize = 0;
    proof {
        assert(line@.skip(0) =~= line@);
    }
    while i < n
        invariant
            n == line@.len(),
            i <= n,
            tokens.deep_view() + tokens_from(line@.skip(i as int), cur@)
                =~= old(tokens).deep_view() + line_tokens(line@),
        decreases n - i,
    {
        let c = line.as_str().get_char(i);
        proof {
            assert(line@.skip(i as int)[0] == line@[i as int]);
            assert(line@.skip(i as int).drop_first() =~= line@.skip(i as int + 1));
        }
        if token_char(c) {
            push_char(&mut cur, c);
        } else if !cur.as_str().is_empty() {
            let ghost done = cur@;
            let ghost before = tokens.deep_view();
            tokens.push(cur);
            cur = String::new();
            proof {
                assert(tokens.deep_view() =~= before.push(done));
                assert(tokens_from(line@.skip(i as int), done) == seq![done] + tokens_from(
                    line@.skip(i as int + 1),
                    Seq::<char>::empty(),
                ));
                assert(before.push(done) + tokens_from(line@.skip(i as int + 1), cur@)
                    =~= before + tokens_from(line@.skip(i as int), done));
            }
        }
        i += 1;
    }
    proof {
        assert(line@.skip(n as int) =~= Seq::<char>::empty());
    }
    if !cur.as_str().is_empty() {
        let ghost done = cur@;
        let ghost before = tokens.deep_view();
        tokens.push(cur);
        proof {
            assert(tokens.deep_view() =~= before.push(done));
            assert(before.push(done) =~= before + seq![done]);
        }
    }
}

/// Splits every line into tokens and returns them all, in reading order.
pub fn tokenize(lines: &Vec<String>) -> (tokens: Vec<String>)
    ensures
        tokens.deep_view() == file_tokens(lines.deep_view()),
{
    let mut tokens: Vec<String> = Vec::new();
    let mut li: usize = 0;
    while li < lines.len()
        invariant
            li <= lines.len(),
            tokens.deep_view() =~= file_tokens(lines.deep_view().take(li as int)),
        decreases lines.len() - li,
    {
        tokenize_line(&lines[li], &mut tokens);
        proof {
            assert(lines.deep_view().take(li + 1).drop_last() =~= lines.deep_view().take(
                li as int,
            ));
            assert(lines.deep_view().take(li + 1).last() == lines@[li as int]@);
        }
        li += 1;
    }
    proof {
        assert(lines.deep_view().take(lines@.len() as int) =~= lines.deep_view());
    }
    tokens
}

} // verus!
