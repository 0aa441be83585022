//! The word list that restricts what the speech recognizer may hear.
use vstd::prelude::*;

use crate::text::{replace_all, replace_str, split_char_str, split_on, trim, trim_str};

verus! {

/// The grammar file's text with its JSON brackets and quotes removed.
pub open spec fn grammar_clean(content: Seq<char>) -> Seq<char> {
    replace_all(replace_all(replace_all(content, "["@, ""@), "]"@, ""@), "\""@, ""@)
}

/// The trimmed pieces, in order, with the empty ones left out.
pub open spec fn kept_words(pieces: Seq<Seq<char>>) -> Seq<Seq<char>>
    decreases pieces.len(),
{
    if pieces.len() == 0 {
        Seq::empty()
    } else if trim(pieces.last()).len() > 0 {
        kept_words(pieces.drop_last()).push(trim(pieces.last()))
    } else {
        kept_words(pieces.drop_last())
    }
}

/// The words of a grammar file: its comma-separated entries, trimmed, without
/// empty entries.
pub open spec fn grammar_words(content: Seq<char>) -> Seq<Seq<char>> {
    kept_words(split_on(grammar_clean(content), ','))
}

/// Reads the word list out of the text of a grammar file (a JSON array of
/// strings).
pub fn parse_grammar(content: &str) -> (words: Vec<String>)
    ensures
        words@.len() == grammar_words(content@).len(),
        forall|k: int| 0 <= k < words@.len() ==> #[trigger] words@[k]@ == grammar_words(content@)[k],
{
    proof {
        reveal_strlit("[");
        reveal_strlit("]");
        reveal_strlit("\"");
    }
    let a = replace_str(content, "[", "");
    let b = replace_str(a.as_str(), "]", "");
    let cleaned = replace_str(b.as_str(), "\"", "");
    let pieces = split_char_str(cleaned.as_str(), ',');
    let ghost ps = split_on(cleaned@, ',');
    let mut words: Vec<String> = Vec::new();
    let ghost mut acc: Seq<Seq<char>> = Seq::empty();
    let mut i: usize = 0;
    while i < pieces.len()
        invariant
            pieces@.len() == ps.len(),
            forall|k: int| 0 <= k < pieces@.len() ==> #[trigger] pieces@[k]@ == ps[k],
            i <= pieces@.len(),
            acc == kept_words(ps.take(i as int)),
            words@.len() == acc.len(),
            forall|k: int| 0 <= k < words@.len() ==> #[trigger] words@[k]@ == acc[k],
        decreases pieces@.len() - i,
    {
        let w = trim_str(pieces[i]);
        proof {
            assert(ps.take(i + 1).drop_last() =~= ps.take(i as int));
            assert(ps.take(i + 1).last() == ps[i as int]);
        }
        if w.unicode_len() > 0 {
            words.push(String::from_str(w));
            proof {
                acc = acc.push(w@);
            }
        }
        i = i + 1;
    }
    assert(ps.take(pieces@.len() as int) =~= ps);
    words
}

} // verus!
