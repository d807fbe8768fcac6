//! Normalising nicknames so that OCR output and roster entries compare well.

use vstd::prelude::*;
use crate::text::{alphanumeric, chars_of, is_alphanumeric, lowercase, push_char, to_lowercase};

verus! {

/// The Latin letter or digit a look-alike character is read as: Cyrillic
/// letters that look like Latin ones, `0` as `o` and `5` as `s`; every other
/// character stays as it is.
pub open spec fn confusable(c: char) -> char {
    if c == 'а' {
        'a'
    } else if c == 'р' {
        'p'
    } else if c == 'е' {
        'e'
    } else if c == 'т' {
        't'
    } else if c == 'о' {
        'o'
    } else if c == 'с' {
        'c'
    } else if c == 'х' {
        'x'
    } else if c == 'у' {
        'y'
    } else if c == 'н' {
        'n'
    } else if c == 'м' {
        'm'
    } else if c == '0' {
        'o'
    } else if c == '5' {
        's'
    } else {
        c
    }
}

/// The alphanumeric characters of `s`, in order, each read as `confusable` says.
pub open spec fn fold_nick(s: Seq<char>) -> Seq<char>
    decreases s.len(),
{
    if s.len() == 0 {
        Seq::empty()
    } else if alphanumeric(s.last()) {
        fold_nick(s.drop_last()).push(confusable(s.last()))
    } else {
        fold_nick(s.drop_last())
    }
}

/// The normal form of a nickname: lowercased, then folded.
pub open spec fn normalized(s: Seq<char>) -> Seq<char> {
    fold_nick(lowercase(s))
}

fn confusable_char(c: char) -> (r: char)
    ensures
        r == confusable(c),
{
    match c {
        'а' => 'a',
        'р' => 'p',
        'е' => 'e',
        'т' => 't',
        'о' => 'o',
        'с' => 'c',
        'х' => 'x',
        'у' => 'y',
        'н' => 'n',
        'м' => 'm',
        '0' => 'o',
        '5' => 's',
        _ => c,
    }
}

/// Keeps the alphanumeric characters of an already lowercased nickname and
/// reads look-alike characters as Latin letters.
pub fn fold_nick_chars(lower: &str) -> (r: String)
    ensures
        r@ == fold_nick(lower@),
{
    let chars = chars_of(lower);
    let mut r = String::new();
    let mut i: usize = 0;
    while i < chars.len()
        invariant
            i <= chars@.len(),
            chars@ == lower@,
            r@ == fold_nick(chars@.take(i as int)),
        decreases chars.len() - i,
    {
        let c = chars[i];
        proof {
            assert(chars@.take(i + 1).drop_last() =~= chars@.take(i as int));
            assert(chars@.take(i + 1).last() == c);
        }
        if is_alphanumeric(c) {
            push_char(&mut r, confusable_char(c));
        }
        i = i + 1;
    }
    assert(chars@.take(chars@.len() as int) =~= chars@);
    r
}

/// The normal form of a nickname: lowercased, only letters and digits kept,
/// Cyrillic look-alikes and the digits 0 and 5 read as Latin letters.
pub fn normalize_nick(s: &str) -> (r: String)
    ensures
        r@ == normalized(s@),
{
    let lower = to_lowercase(s);
    fold_nick_chars(lower.as_str())
}

/// Whether `c` is one of the Latin letters a look-alike is read as.
pub open spec fn read_as_latin(c: char) -> bool {
    c == 'a' || c == 'p' || c == 'e' || c == 't' || c == 'o' || c == 'c' || c == 'x' || c == 'y'
        || c == 'n' || c == 'm' || c == 's'
}

proof fn lemma_fold_nick_chars(s: Seq<char>)
    ensures
        forall|k: int| 0 <= k < fold_nick(s).len() ==> confusable(#[trigger] fold_nick(s)[k]) == fold_nick(s)[k],
        forall|k: int|
            0 <= k < fold_nick(s).len() ==> alphanumeric(#[trigger] fold_nick(s)[k]) || read_as_latin(
                fold_nick(s)[k],
            ),
    decreases s.len(),
{
    if s.len() > 0 {
        let prev = fold_nick(s.drop_last());
        lemma_fold_nick_chars(s.drop_last());
        if alphanumeric(s.last()) {
            let c = s.last();
            assert(confusable(confusable(c)) == confusable(c));
            assert(alphanumeric(confusable(c)) || read_as_latin(confusable(c)));
            assert forall|k: int| 0 <= k < fold_nick(s).len() implies confusable(
                #[trigger] fold_nick(s)[k],
            ) == fold_nick(s)[k] && (alphanumeric(fold_nick(s)[k]) || read_as_latin(
                fold_nick(s)[k],
            )) by {
                if k < prev.len() {
                    assert(fold_nick(s)[k] == prev[k]);
                }
            }
        } else {
            assert(fold_nick(s) == prev);
        }
    }
}

proof fn lemma_fold_nick_fixed(u: Seq<char>)
    requires
        forall|k: int| 0 <= k < u.len() ==> alphanumeric(#[trigger] u[k]),
        forall|k: int| 0 <= k < u.len() ==> confusable(#[trigger] u[k]) == u[k],
    ensures
        fold_nick(u) == u,
    decreases u.len(),
{
    if u.len() > 0 {
        lemma_fold_nick_fixed(u.drop_last());
        assert(alphanumeric(u[u.len() - 1]));
        assert(confusable(u[u.len() - 1]) == u[u.len() - 1]);
        assert(u.drop_last().push(u.last()) =~= u);
    }
}

/// A normal form holds no look-alike left to read: none of the Cyrillic
/// look-alikes nor the digits 0 and 5, and each of its characters is
/// alphanumeric or one of the Latin letters look-alikes are read as.
pub proof fn law_normalized_plain(s: Seq<char>)
    ensures
        forall|k: int| 0 <= k < normalized(s).len() ==> confusable(#[trigger] normalized(s)[k]) == normalized(s)[k],
        forall|k: int|
            0 <= k < normalized(s).len() ==> alphanumeric(#[trigger] normalized(s)[k]) || read_as_latin(
                normalized(s)[k],
            ),
{
    lemma_fold_nick_chars(lowercase(s));
}

/// Normalising a normal form again leaves it as it is, given what `lowercase`
/// and `alphanumeric` say of it: that it is its own lowercase form and that
/// all its characters (the Latin letters look-alikes are read as among them)
/// are alphanumeric.
pub proof fn law_normalize_settles(s: Seq<char>)
    requires
        lowercase(normalized(s)) == normalized(s),
        forall|k: int| 0 <= k < normalized(s).len() ==> alphanumeric(#[trigger] normalized(s)[k]),
    ensures
        normalized(normalized(s)) == normalized(s),
{
    lemma_fold_nick_chars(lowercase(s));
    lemma_fold_nick_fixed(normalized(s));
}

} // verus!
