//! Signature validation: whitespace removal and the parenthesis checks a
//! well-formed signature must pass.

use vstd::prelude::*;
use vstd::string::StrSliceExecFns;

use crate::push_char;

verus! {

/// A whitespace character: the Unicode `White_Space` set, exactly what
/// `char::is_whitespace` recognizes.
pub open spec fn is_space_char(c: char) -> bool {
    ||| c == ' '
    ||| c == '\t'
    ||| c == '\n'
    ||| c == '\u{b}'
    ||| c == '\u{c}'
    ||| c == '\r'
    ||| c == '\u{85}'
    ||| c == '\u{a0}'
    ||| c == '\u{1680}'
    ||| (0x2000 <= c as u32 && c as u32 <= 0x200a)
    ||| c == '\u{2028}'
    ||| c == '\u{2029}'
    ||| c == '\u{202f}'
    ||| c == '\u{205f}'
    ||| c == '\u{3000}'
}

/// The text with every whitespace character removed, order kept.
pub open spec fn strip_spaces(s: Seq<char>) -> Seq<char>
    decreases s.len(),
{
    if s.len() == 0 {
        Seq::empty()
    } else if is_space_char(s.last()) {
        strip_spaces(s.drop_last())
    } else {
        strip_spaces(s.drop_last()).push(s.last())
    }
}

/// How often a character occurs in the text.
pub open spec fn count_char(s: Seq<char>, c: char) -> nat
    decreases s.len(),
{
    if s.len() == 0 {
        0
    } else {
        count_char(s.drop_last(), c) + if s.last() == c {
            1nat
        } else {
            0nat
        }
    }
}

/// A well-formed signature text: nonempty, ends with a closing parenthesis,
/// and the opening and closing parentheses balance in number.
pub open spec fn parens_ok(s: Seq<char>) -> bool {
    &&& s.len() > 0
    &&& s.last() == ')'
    &&& count_char(s, '(') == count_char(s, ')')
}

/// What validation owes for a raw input: the whitespace-free text when it is
/// well formed, nothing otherwise.
pub open spec fn validated(s: Seq<char>) -> Option<Seq<char>> {
    if parens_ok(strip_spaces(s)) {
        Some(strip_spaces(s))
    } else {
        None
    }
}

fn is_space(c: char) -> (r: bool)
    ensures
        r == is_space_char(c),
{
    c == ' ' || c == '\t' || c == '\n' || c == '\u{b}' || c == '\u{c}' || c == '\r'
        || c == '\u{85}' || c == '\u{a0}' || c == '\u{1680}'
        || (0x2000 <= c as u32 && c as u32 <= 0x200a)
        || c == '\u{2028}' || c == '\u{2029}' || c == '\u{202f}' || c == '\u{205f}'
        || c == '\u{3000}'
}

/// Removes every whitespace character from the given signature text.
pub fn remove_whitespaces(s: &str) -> (r: String)
    ensures
        r@ == strip_spaces(s@),
{
    let n = s.unicode_len();
    let mut r = String::new();
    for i in 0..n
        invariant
            n == s@.len(),
            r@ == strip_spaces(s@.take(i as int)),
    {
        let c = s.get_char(i);
        proof {
            assert(s@.take(i + 1).drop_last() =~= s@.take(i as int));
            assert(s@.take(i + 1).last() == c);
        }
        if !is_space(c) {
            push_char(&mut r, c);
        }
    }
    proof {
        assert(s@.take(n as int) =~= s@);
    }
    r
}

fn count_occurrences(s: &str, c: char) -> (r: usize)
    ensures
        r == count_char(s@, c),
{
    let n = s.unicode_len();
    let mut r: usize = 0;
    for i in 0..n
        invariant
            n == s@.len(),
            r <= i,
            r == count_char(s@.take(i as int), c),
    {
        proof {
            assert(s@.take(i + 1).drop_last() =~= s@.take(i as int));
        }
        if s.get_char(i) == c {
            r = r + 1;
        }
    }
    proof {
        assert(s@.take(n as int) =~= s@);
    }
    r
}

/// Decides whether the signature text ends with a closing parenthesis and has
/// as many opening as closing parentheses.
pub fn verify_parenthesis(function_sig: &str) -> (r: bool)
    ensures
        r == parens_ok(function_sig@),
{
    let n = function_sig.unicode_len();
    if n == 0 {
        return false;
    }
    if function_sig.get_char(n - 1) != ')' {
        return false;
    }
    count_occurrences(function_sig, '(') == count_occurrences(function_sig, ')')
}

/// Cleans the raw signature of whitespace and returns it when it passes the
/// parenthesis checks; rejection is signalled by the absent result alone.
pub fn try_validate(function_sig: &str) -> (r: Option<String>)
    ensures
        match r {
            Some(v) => validated(function_sig@) == Some(v@),
            None => validated(function_sig@) is None,
        },
{
    let result = remove_whitespaces(function_sig);
    if !verify_parenthesis(result.as_str()) {
        return None;
    }
    Some(result)
}

/// A character that occurs at all occurs at some position.
pub proof fn lemma_count_char_occurs(s: Seq<char>, c: char)
    requires
        count_char(s, c) > 0,
    ensures
        exists|j: int| 0 <= j < s.len() && s[j] == c,
    decreases s.len(),
{
    if s.last() == c {
        assert(s[s.len() - 1] == c);
    } else {
        lemma_count_char_occurs(s.drop_last(), c);
        let j = choose|j: int| 0 <= j < s.drop_last().len() && s.drop_last()[j] == c;
        assert(s[j] == c);
    }
}

proof fn lemma_strip_spaces_clean(s: Seq<char>)
    ensures
        forall|i: int| 0 <= i < strip_spaces(s).len() ==> !is_space_char(#[trigger] strip_spaces(s)[i]),
    decreases s.len(),
{
    if s.len() > 0 {
        lemma_strip_spaces_clean(s.drop_last());
        if !is_space_char(s.last()) {
            let t = strip_spaces(s.drop_last()).push(s.last());
            assert(strip_spaces(s) == t);
            assert forall|i: int| 0 <= i < t.len() implies !is_space_char(#[trigger] t[i]) by {
                if i < strip_spaces(s.drop_last()).len() {
                    assert(t[i] == strip_spaces(s.drop_last())[i]);
                } else {
                    assert(t[i] == s.last());
                }
            }
        }
    }
}

proof fn lemma_strip_spaces_noop(t: Seq<char>)
    requires
        forall|i: int| 0 <= i < t.len() ==> !is_space_char(#[trigger] t[i]),
    ensures
        strip_spaces(t) == t,
    decreases t.len(),
{
    if t.len() == 0 {
        assert(strip_spaces(t) =~= t);
    } else {
        lemma_strip_spaces_noop(t.drop_last());
        assert(strip_spaces(t) =~= t);
    }
}

/// Removing whitespace is idempotent: cleaning an already clean text changes
/// nothing.
pub proof fn lemma_strip_spaces_idempotent(s: Seq<char>)
    ensures
        strip_spaces(strip_spaces(s)) == strip_spaces(s),
{
    lemma_strip_spaces_clean(s);
    lemma_strip_spaces_noop(strip_spaces(s));
}

/// Validation does not care about whitespace: a raw input and its
/// whitespace-free form validate to the same outcome.
pub proof fn lemma_validate_spaces_idempotent(s: Seq<char>)
    ensures
        validated(strip_spaces(s)) == validated(s),
{
    lemma_strip_spaces_idempotent(s);
}

} // verus!
