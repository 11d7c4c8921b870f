//! Splitting command text into tokens.
//!
//! Whitespace separates tokens; each of `(`, `)` and `,` is a token by itself;
//! every other run of characters is one word.
use vstd::prelude::*;

verus! {

/// Characters that separate tokens.
pub open spec fn is_space(c: char) -> bool {
    c == ' ' || c == '\t' || c == '\n' || c == '\r'
}

/// Characters that form a token of their own.
pub open spec fn is_punct(c: char) -> bool {
    c == '(' || c == ')' || c == ','
}

/// The tokens so far, with the word still being read added if non-empty.
pub open spec fn flush(toks: Seq<Seq<char>>, word: Seq<char>) -> Seq<Seq<char>> {
    if word.len() == 0 {
        toks
    } else {
        toks.push(word)
    }
}

/// Reading `s` left to right: the finished tokens and the word being read.
pub open spec fn lex(s: Seq<char>) -> (Seq<Seq<char>>, Seq<char>)
    decreases s.len(),
{
    if s.len() == 0 {
        (Seq::empty(), Seq::empty())
    } else {
        let (toks, word) = lex(s.drop_last());
        let c = s.last();
        if is_space(c) {
            (flush(toks, word), Seq::empty())
        } else if is_punct(c) {
            (flush(toks, word).push(seq![c]), Seq::empty())
        } else {
            (toks, word.push(c))
        }
    }
}

/// The tokens of a text.
pub open spec fn tokens(s: Seq<char>) -> Seq<Seq<char>> {
    flush(lex(s).0, lex(s).1)
}

/// The values of a sequence of strings.
pub open spec fn views(v: Seq<String>) -> Seq<Seq<char>> {
    v.map_values(|s: String| s@)
}

fn char_is_space(c: char) -> (r: bool)
    ensures
        r == is_space(c),
{
    c == ' ' || c == '\t' || c == '\n' || c == '\r'
}

fn char_is_punct(c: char) -> (r: bool)
    ensures
        r == is_punct(c),
{
    c == '(' || c == ')' || c == ','
}

/// The tokens of `text`, in order.
pub fn tokenize(text: &str) -> (r: Vec<String>)
    ensures
        views(r@) == tokens(text@),
{
    let n = text.unicode_len();
    let mut toks: Vec<String> = Vec::new();
    let mut start: usize = 0;
    let mut i: usize = 0;
    assert(text@.subrange(0, 0) =~= Seq::<char>::empty());
    assert(views(toks@) =~= Seq::<Seq<char>>::empty());
    while i < n
        invariant
            n == text@.len(),
            start <= i <= n,
            lex(text@.subrange(0, i as int)) == (views(toks@), text@.subrange(
                start as int,
                i as int,
            )),
        decreases n - i,
    {
        let ghost prefix = text@.subrange(0, i as int);
        let ghost before = toks@;
        let c = text.get_char(i);
        assert(text@.subrange(0, i + 1).drop_last() =~= prefix);
        assert(text@.subrange(0, i + 1).last() == c);
        if char_is_space(c) || char_is_punct(c) {
            if start < i {
                let word = String::from_str(text.substring_char(start, i));
                toks.push(word);
                assert(views(toks@) =~= views(before).push(text@.subrange(start as int, i as int)));
            } else {
                assert(text@.subrange(start as int, i as int).len() == 0);
            }
            let ghost flushed = toks@;
            if char_is_punct(c) {
                let p = String::from_str(text.substring_char(i, i + 1));
                toks.push(p);
                assert(text@.subrange(i as int, i + 1) =~= seq![c]);
                assert(views(toks@) =~= views(flushed).push(seq![c]));
            }
            start = i + 1;
        } else {
            assert(text@.subrange(start as int, i + 1) =~= text@.subrange(
                start as int,
                i as int,
            ).push(c));
        }
        i = i + 1;
        assert(text@.subrange(start as int, i as int).len() == 0 ==> text@.subrange(
            start as int,
            i as int,
        ) =~= Seq::<char>::empty());
    }
    assert(text@.subrange(0, n as int) =~= text@);
    if start < n {
        let ghost before = toks@;
        let word = String::from_str(text.substring_char(start, n));
        toks.push(word);
        assert(views(toks@) =~= views(before).push(text@.subrange(start as int, n as int)));
    }
    toks
}

} // verus!
