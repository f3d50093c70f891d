//! Selector encoding and the bounded vanity-suffix search.

use sha3::Digest;
use vstd::prelude::*;
use vstd::string::StrSliceExecFns;
use vstd::string::StringExecFns;

use crate::push_char;
use crate::validator::{
    count_char, lemma_count_char_occurs, parens_ok, strip_spaces, try_validate,
};

verus! {

/// The position of the first opening parenthesis in the text, or its length
/// when there is none.
pub open spec fn first_open(s: Seq<char>) -> int
    decreases s.len(),
{
    if s.len() == 0 {
        0
    } else if s[0] == '(' {
        0
    } else {
        1 + first_open(s.drop_first())
    }
}

pub proof fn lemma_first_open(s: Seq<char>)
    ensures
        0 <= first_open(s) <= s.len(),
        forall|j: int| 0 <= j < first_open(s) ==> s[j] != '(',
        first_open(s) < s.len() ==> s[first_open(s)] == '(',
    decreases s.len(),
{
    if s.len() > 0 && s[0] != '(' {
        lemma_first_open(s.drop_first());
        assert forall|j: int| 0 <= j < first_open(s) implies s[j] != '(' by {
            if j > 0 {
                assert(s.drop_first()[j - 1] != '(');
            }
        }
    }
}

/// A parsed signature: the name part and the parenthesized argument part.
pub struct Function {
    pub name: String,
    pub args: String,
}

/// Splits a signature at its first opening parenthesis: the text before it is
/// the name, the rest (parenthesis included) the argument part. Nothing is
/// returned only when the text has no opening parenthesis at all.
pub fn try_parse(function_signature: &str) -> (r: Option<Function>)
    ensures
        match r {
            Some(f) => {
                &&& first_open(function_signature@) < function_signature@.len()
                &&& f.name@ == function_signature@.take(first_open(function_signature@))
                &&& f.args@ == function_signature@.skip(first_open(function_signature@))
            },
            None => first_open(function_signature@) == function_signature@.len(),
        },
{
    let n = function_signature.unicode_len();
    let mut i: usize = 0;
    while i < n && function_signature.get_char(i) != '('
        invariant
            n == function_signature@.len(),
            0 <= i <= n,
            forall|j: int| 0 <= j < i ==> function_signature@[j] != '(',
        decreases n - i,
    {
        i = i + 1;
    }
    proof {
        lemma_first_open(function_signature@);
        if i < n {
            assert(first_open(function_signature@) == i) by {
                let fo = first_open(function_signature@);
                if fo < i {
                    assert(function_signature@[fo] == '(');
                }
            }
        }
    }
    if i == n {
        return None;
    }
    let name = function_signature.substring_char(0, i);
    let args = function_signature.substring_char(i, n);
    Some(Function { name: name.to_owned(), args: args.to_owned() })
}

/// The Keccak-256 digest (32 bytes) of the UTF-8 encoding of a text.
pub uninterp spec fn keccak256_of(s: Seq<char>) -> Seq<u8>;

/// Relies on `sha3::Keccak256` through `Digest::digest`: the Keccak-256
/// digest of the input's UTF-8 bytes, always 32 bytes long and a function of
/// the input alone.
#[verifier::external_body]
fn keccak256(s: &str) -> (r: Vec<u8>)
    ensures
        r@ == keccak256_of(s@),
        r@.len() == 32,
{
    sha3::Keccak256::digest(s.as_bytes()).to_vec()
}

/// The 4-byte selector of a signature text: the leading bytes of its digest.
pub open spec fn selector_of(s: Seq<char>) -> Seq<u8> {
    keccak256_of(s).take(4)
}

/// Computes the selector for a given function signature.
pub fn encode_function_signature(function_signature: &str) -> (out: [u8; 4])
    ensures
        out@ == selector_of(function_signature@),
{
    let digest = keccak256(function_signature);
    let out: [u8; 4] = [digest[0], digest[1], digest[2], digest[3]];
    proof {
        assert(out@ =~= selector_of(function_signature@));
    }
    out
}

/// The 64-symbol suffix alphabet, in generation order: digits, lower-case
/// letters, upper-case letters, then the dollar sign and the underscore.
pub open spec fn alphabet() -> Seq<char> {
    seq![
        '0', '1', '2', '3', '4', '5', '6', '7', '8', '9', 'a', 'b', 'c', 'd', 'e', 'f', 'g', 'h',
        'i', 'j', 'k', 'l', 'm', 'n', 'o', 'p', 'q', 'r', 's', 't', 'u', 'v', 'w', 'x', 'y', 'z',
        'A', 'B', 'C', 'D', 'E', 'F', 'G', 'H', 'I', 'J', 'K', 'L', 'M', 'N', 'O', 'P', 'Q', 'R',
        'S', 'T', 'U', 'V', 'W', 'X', 'Y', 'Z', '$', '_',
    ]
}

/// The suffix alphabet as a vector of characters.
#[verifier::rlimit(60)]
pub fn alphabet_chars() -> (v: Vec<char>)
    ensures
        v@ == alphabet(),
{
    let mut v: Vec<char> = Vec::new();
    v.push('0');
    v.push('1');
    v.push('2');
    v.push('3');
    v.push('4');
    v.push('5');
    v.push('6');
    v.push('7');
    v.push('8');
    v.push('9');
    v.push('a');
    v.push('b');
    v.push('c');
    v.push('d');
    v.push('e');
    v.push('f');
    v.push('g');
    v.push('h');
    v.push('i');
    v.push('j');
    v.push('k');
    v.push('l');
    v.push('m');
    v.push('n');
    v.push('o');
    v.push('p');
    v.push('q');
    v.push('r');
    v.push('s');
    v.push('t');
    v.push('u');
    v.push('v');
    v.push('w');
    v.push('x');
    v.push('y');
    v.push('z');
    v.push('A');
    v.push('B');
    v.push('C');
    v.push('D');
    v.push('E');
    v.push('F');
    v.push('G');
    v.push('H');
    v.push('I');
    v.push('J');
    v.push('K');
    v.push('L');
    v.push('M');
    v.push('N');
    v.push('O');
    v.push('P');
    v.push('Q');
    v.push('R');
    v.push('S');
    v.push('T');
    v.push('U');
    v.push('V');
    v.push('W');
    v.push('X');
    v.push('Y');
    v.push('Z');
    v.push('$');
    v.push('_');
    proof {
        assert(v@ =~= alphabet());
    }
    v
}

/// The opening round of the suffix enumeration: one-character suffixes, one
/// per alphabet symbol, in alphabet order.
pub open spec fn first_round(a: Seq<char>) -> Seq<Seq<char>> {
    Seq::new(a.len(), |i: int| seq![a[i]])
}

/// The round that follows a frontier: every alphabet symbol prepended to
/// every frontier element, frontier order outer, alphabet order inner.
pub open spec fn next_round_spec(prev: Seq<Seq<char>>, a: Seq<char>) -> Seq<Seq<char>> {
    Seq::new(
        prev.len() * a.len(),
        |k: int| seq![a[k % (a.len() as int)]] + prev[k / (a.len() as int)],
    )
}

/// Frontier of round `r`: all suffixes of length `r + 1`, in generation
/// order.
pub open spec fn round_frontier(a: Seq<char>, r: nat) -> Seq<Seq<char>>
    decreases r,
{
    if r == 0 {
        first_round(a)
    } else {
        next_round_spec(round_frontier(a, (r - 1) as nat), a)
    }
}

/// Every suffix the search tries under the bound `level`, in the order it is
/// tried: the frontiers of rounds `0` to `level - 1`, shorter before longer.
pub open spec fn suffix_order(a: Seq<char>, level: nat) -> Seq<Seq<char>>
    decreases level,
{
    if level == 0 {
        Seq::<Seq<char>>::empty()
    } else {
        suffix_order(a, (level - 1) as nat) + round_frontier(a, (level - 1) as nat)
    }
}

/// A shorter bound's order is a prefix of a longer bound's order: raising the
/// bound only appends further suffixes.
pub proof fn lemma_suffix_order_prefix(a: Seq<char>, m: nat, l: nat)
    requires
        m <= l,
    ensures
        suffix_order(a, m).len() <= suffix_order(a, l).len(),
        forall|k: int|
            0 <= k < suffix_order(a, m).len() ==> suffix_order(a, l)[k] == suffix_order(a, m)[k],
    decreases l,
{
    if m < l {
        lemma_suffix_order_prefix(a, m, (l - 1) as nat);
    }
}

/// Every suffix in the frontier of round `r` is `r + 1` characters long: the
/// search tries the suffix lengths `1` through `level`, a whole round of
/// shorter suffixes before any longer one.
pub proof fn lemma_round_frontier_suffix_len(a: Seq<char>, r: nat, i: int)
    requires
        0 <= i < round_frontier(a, r).len(),
    ensures
        round_frontier(a, r)[i].len() == r + 1,
    decreases r,
{
    if r > 0 {
        let prev = round_frontier(a, (r - 1) as nat);
        let n = a.len() as int;
        assert(0 < n) by {
            if n == 0 {
                assert(prev.len() * 0 == 0);
            }
        }
        vstd::arithmetic::div_mod::lemma_div_pos_is_pos(i, n);
        vstd::arithmetic::div_mod::lemma_multiply_divide_lt(i, n, prev.len() as int);
        assert(prev.len() * n == n * prev.len()) by (nonlinear_arith);
        lemma_round_frontier_suffix_len(a, (r - 1) as nat, i / n);
    }
}

/// Builds the round that follows the given frontier: each alphabet symbol
/// prepended to each frontier element, frontier order outer, alphabet order
/// inner.
pub fn next_round(frontier: &Vec<String>, alpha: &Vec<char>) -> (cur: Vec<String>)
    ensures
        cur.deep_view() == next_round_spec(frontier.deep_view(), alpha@),
{
    let ghost next = next_round_spec(frontier.deep_view(), alpha@);
    let mut cur: Vec<String> = Vec::new();
    for idx in 0..frontier.len()
        invariant
            next == next_round_spec(frontier.deep_view(), alpha@),
            cur@.len() == idx * alpha@.len(),
            forall|k: int| 0 <= k < cur@.len() ==> #[trigger] cur@[k]@ == next[k],
    {
        for j in 0..alpha.len()
            invariant
                next == next_round_spec(frontier.deep_view(), alpha@),
                idx < frontier@.len(),
                cur@.len() == idx * alpha@.len() + j,
                forall|k: int| 0 <= k < cur@.len() ==> #[trigger] cur@[k]@ == next[k],
        {
            let mut combination = String::new();
            push_char(&mut combination, alpha[j]);
            combination.append(frontier[idx].as_str());
            proof {
                let n = alpha@.len() as int;
                let f = frontier@.len() as int;
                let k = idx * n + j;
                vstd::arithmetic::mul::lemma_mul_is_distributive_add_other_way(n, idx as int, 1);
                vstd::arithmetic::mul::lemma_mul_inequality(idx as int + 1, f, n);
                assert(k + 1 <= f * n);
                vstd::arithmetic::div_mod::lemma_fundamental_div_mod_converse(
                    k,
                    n,
                    idx as int,
                    j as int,
                );
                assert(combination@ =~= next[k]);
            }
            cur.push(combination);
        }
        proof {
            assert((idx + 1) * alpha@.len() == idx * alpha@.len() + alpha@.len())
                by (nonlinear_arith);
        }
    }
    proof {
        assert(cur.deep_view() =~= next);
    }
    cur
}

/// The renamed signature tried for a suffix: the name, an underscore, the
/// suffix, then the argument part.
pub open spec fn candidate(name: Seq<char>, args: Seq<char>, suffix: Seq<char>) -> Seq<char> {
    name + seq!['_'] + suffix + args
}

/// A signature text meets the goal when the first `target` bytes of its
/// selector are zero; more zero bytes than a selector has can never be met.
pub open spec fn meets_target(s: Seq<char>, target: nat) -> bool {
    target <= 4 && (forall|i: int| 0 <= i < target ==> selector_of(s)[i] == 0)
}

/// No suffix before position `k` of the order yields a candidate that meets
/// the target.
pub open spec fn no_hit_before(
    name: Seq<char>,
    args: Seq<char>,
    target: nat,
    order: Seq<Seq<char>>,
    k: int,
) -> bool {
    forall|j: int| 0 <= j < k ==> !meets_target(candidate(name, args, #[trigger] order[j]), target)
}

/// What the bounded search owes: the candidate of the first suffix in
/// generation order that meets the target, or nothing when no suffix within
/// the bound does.
pub open spec fn search_outcome(
    name: Seq<char>,
    args: Seq<char>,
    level: nat,
    target: nat,
    r: Option<String>,
) -> bool {
    let order = suffix_order(alphabet(), level);
    match r {
        Some(c) => exists|k: int|
            {
                &&& 0 <= k < order.len()
                &&& c@ == candidate(name, args, #[trigger] order[k])
                &&& meets_target(c@, target)
                &&& no_hit_before(name, args, target, order, k)
            },
        None => no_hit_before(name, args, target, order, order.len() as int),
    }
}

fn selector_meets(sel: &[u8; 4], target: u8) -> (r: bool)
    requires
        target <= 4,
    ensures
        r == (forall|m: int| 0 <= m < target ==> sel@[m] == 0),
{
    let mut zeros = true;
    for i in 0..target
        invariant
            target <= 4,
            zeros == (forall|m: int| 0 <= m < i ==> sel@[m] == 0),
    {
        if sel[i as usize] != 0 {
            zeros = false;
        }
    }
    zeros
}

impl Function {
    /// Bounded exhaustive search with early exit: tries every suffix up to
    /// length `level` in generation order and returns the first renamed
    /// signature whose selector starts with `target` zero bytes, or nothing
    /// when the whole bound is exhausted.
    pub fn try_optimizations(&self, level: u8, target: u8) -> (r: Option<String>)
        ensures
            search_outcome(self.name@, self.args@, level as nat, target as nat, r),
    {
        let ghost a = alphabet();
        let ghost full = suffix_order(a, level as nat);
        if target > 4 {
            return None;
        }
        let alpha = alphabet_chars();
        let mut acc: Vec<String> = Vec::new();
        for j in 0..alpha.len()
            invariant
                alpha@ == a,
                a == alphabet(),
                acc@.len() == j,
                forall|k: int| 0 <= k < j ==> #[trigger] acc@[k]@ == first_round(a)[k],
        {
            let mut s = String::new();
            push_char(&mut s, alpha[j]);
            acc.push(s);
            proof {
                assert(acc@[j as int]@ =~= first_round(a)[j as int]);
            }
        }
        proof {
            assert(acc.deep_view() =~= round_frontier(a, 0));
        }
        for n in 0..level
            invariant
                alpha@ == a,
                a == alphabet(),
                full == suffix_order(a, level as nat),
                target <= 4,
                acc.deep_view() == round_frontier(a, n as nat),
                no_hit_before(
                    self.name@,
                    self.args@,
                    target as nat,
                    full,
                    suffix_order(a, n as nat).len() as int,
                ),
        {
            let ghost base = suffix_order(a, n as nat).len() as int;
            proof {
                lemma_suffix_order_prefix(a, (n + 1) as nat, level as nat);
                assert(suffix_order(a, (n + 1) as nat) == suffix_order(a, n as nat)
                    + round_frontier(a, n as nat));
                assert forall|t: int|
                    0 <= t < acc@.len() implies full[base + t] == #[trigger] acc@[t]@ by {
                    assert(full[base + t] == suffix_order(a, (n + 1) as nat)[base + t]);
                    assert(acc.deep_view()[t] == acc@[t]@);
                }
            }
            for idx in 0..acc.len()
                invariant
                    alpha@ == a,
                    a == alphabet(),
                    full == suffix_order(a, level as nat),
                    target <= 4,
                    n < level,
                    acc.deep_view() == round_frontier(a, n as nat),
                    base == suffix_order(a, n as nat).len(),
                    base + acc@.len() <= full.len(),
                    forall|t: int| 0 <= t < acc@.len() ==> full[base + t] == #[trigger] acc@[t]@,
                    no_hit_before(self.name@, self.args@, target as nat, full, base + idx),
            {
                let mut func_sig = String::new();
                func_sig.append(self.name.as_str());
                func_sig.append("_");
                func_sig.append(acc[idx].as_str());
                func_sig.append(self.args.as_str());
                proof {
                    reveal_strlit("_");
                    assert(func_sig@ =~= candidate(self.name@, self.args@, acc@[idx as int]@));
                }
                let sel = encode_function_signature(func_sig.as_str());
                if selector_meets(&sel, target) {
                    proof {
                        let k = base + idx;
                        assert(full[k] == acc@[idx as int]@);
                        assert(sel@ == selector_of(func_sig@));
                        assert(meets_target(func_sig@, target as nat));
                    }
                    return Some(func_sig);
                }
                proof {
                    assert(full[base + idx] == acc@[idx as int]@);
                    assert(!meets_target(
                        candidate(self.name@, self.args@, full[base + idx]),
                        target as nat,
                    ));
                }
            }
            acc = next_round(&acc, &alpha);
            proof {
                assert(acc.deep_view() == round_frontier(a, (n + 1) as nat));
                assert(suffix_order(a, (n + 1) as nat).len() == base
                    + round_frontier(a, n as nat).len());
            }
        }
        None
    }
}

/// A well-formed signature text always has an opening parenthesis to split
/// at: it ends with a closing one and the counts balance, so parsing a
/// validated signature cannot fail.
pub proof fn lemma_parens_ok_has_open(s: Seq<char>)
    requires
        parens_ok(s),
    ensures
        0 <= first_open(s) < s.len(),
{
    assert(count_char(s, ')') > 0);
    lemma_count_char_occurs(s, '(');
    lemma_first_open(s);
    let j = choose|j: int| 0 <= j < s.len() && s[j] == '(';
    assert(first_open(s) < s.len()) by {
        if first_open(s) == s.len() {
            assert(s[j] != '(');
        }
    }
}

/// Runs the optimizer on the given raw signature: validation, parsing, then
/// the bounded search. A signature that fails validation yields nothing;
/// otherwise the result is the bounded search's outcome on the cleaned
/// signature's name and argument parts.
pub fn run(function_signature: &str, level: u8, target: u8) -> (r: Option<String>)
    ensures
        ({
            let cleaned = strip_spaces(function_signature@);
            if parens_ok(cleaned) {
                search_outcome(
                    cleaned.take(first_open(cleaned)),
                    cleaned.skip(first_open(cleaned)),
                    level as nat,
                    target as nat,
                    r,
                )
            } else {
                r is None
            }
        }),
{
    let function_signature_cleaned = match try_validate(function_signature) {
        None => { return None },
        Some(v) => v,
    };
    let function = match try_parse(function_signature_cleaned.as_str()) {
        None => {
            proof {
                lemma_parens_ok_has_open(function_signature_cleaned@);
            }
            return None;
        },
        Some(f) => f,
    };
    function.try_optimizations(level, target)
}

} // verus!
