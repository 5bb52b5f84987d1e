//! The formula grammar `name(arguments)`.
//!
//! The name is everything before the first `(`; the arguments are everything
//! between that `(` and the closing `)`, which must be the formula's last
//! character. The arguments are passed on verbatim: they may hold further
//! parentheses, and their syntax belongs to the plugin.
use vstd::prelude::*;
use crate::registry::PluginError;

verus! {

/// `i` is the position of the first `(` of `s`, and `s` ends with a `)`
/// that comes after it.
pub open spec fn is_split_at(s: Seq<char>, i: int) -> bool {
    &&& 0 <= i
    &&& i + 1 < s.len()
    &&& s[i] == '('
    &&& s[s.len() - 1] == ')'
    &&& forall|j: int| 0 <= j < i ==> s[j] != '('
}

/// The plugin name and the argument payload of a formula, if it is one.
pub open spec fn formula_parts(s: Seq<char>) -> Option<(Seq<char>, Seq<char>)> {
    if exists|i: int| is_split_at(s, i) {
        let i = choose|i: int| is_split_at(s, i);
        Some((s.take(i), s.subrange(i + 1, s.len() - 1)))
    } else {
        None
    }
}

/// A formula has at most one split position.
pub proof fn lemma_split_unique(s: Seq<char>, i: int, k: int)
    requires
        is_split_at(s, i),
        is_split_at(s, k),
    ensures
        i == k,
{
    if i < k {
        assert(s[i] != '(');
    } else if k < i {
        assert(s[k] != '(');
    }
}

/// Every formula `name(arguments)` whose name holds no `(` splits back into
/// that name and those arguments, whatever the arguments hold; a string that
/// does not end with `)`, or holds no `(` before its last character, is no
/// formula.
pub proof fn lemma_formula_round_trip(name: Seq<char>, arguments: Seq<char>, s: Seq<char>)
    requires
        forall|j: int| 0 <= j < name.len() ==> name[j] != '(',
    ensures
        formula_parts(name + seq!['('] + arguments + seq![')']) == Some((name, arguments)),
        (s.len() == 0 || s[s.len() - 1] != ')'
            || forall|j: int| 0 <= j < s.len() - 1 ==> s[j] != '(') ==> formula_parts(s) is None,
{
    let f = name + seq!['('] + arguments + seq![')'];
    let i = name.len() as int;
    assert(f[i] == '(');
    assert(f[f.len() - 1] == ')');
    assert forall|j: int| 0 <= j < i implies f[j] != '(' by {
        assert(f[j] == name[j]);
    }
    assert(is_split_at(f, i));
    let c = choose|k: int| is_split_at(f, k);
    lemma_split_unique(f, i, c);
    assert(f.take(i) =~= name);
    assert(f.subrange(i + 1, f.len() - 1) =~= arguments);
    if exists|k: int| is_split_at(s, k) {
        let k = choose|k: int| is_split_at(s, k);
        assert(s[k] == '(');
    }
}

/// The characters of `s`, in order.
pub fn chars_of(s: &str) -> (r: Vec<char>)
    ensures
        r@ == s@,
{
    let mut v: Vec<char> = Vec::new();
    for c in it: s.chars()
        invariant
            v@ == it.seq().take(it.index() as int),
    {
        v.push(c);
    }
    v
}

/// Relies on `String`'s `FromIterator<&char>`: the string holds the given
/// characters, in order.
#[verifier::external_body]
fn string_of(cs: &Vec<char>) -> (r: String)
    ensures
        r@ == cs@,
{
    String::from_iter(cs.iter())
}

/// The characters `cs[from..to]`, as a string.
fn substring(cs: &Vec<char>, from: usize, to: usize) -> (r: String)
    requires
        from <= to <= cs.len(),
    ensures
        r@ == cs@.subrange(from as int, to as int),
{
    let mut v: Vec<char> = Vec::new();
    let mut k: usize = from;
    while k < to
        invariant
            from <= k <= to <= cs.len(),
            v@ == cs@.subrange(from as int, k as int),
        decreases to - k,
    {
        v.push(cs[k]);
        k += 1;
        assert(v@ =~= cs@.subrange(from as int, k as int));
    }
    string_of(&v)
}

/// Splits a formula into its plugin name and its argument payload.
pub fn parse_formula(formula: &str) -> (r: Result<(String, String), PluginError>)
    ensures
        match formula_parts(formula@) {
            Some((name, arguments)) => r matches Ok((n, a)) && n@ == name && a@ == arguments,
            None => r == Err::<(String, String), PluginError>(PluginError::QueryParseError),
        },
{
    let cs = chars_of(formula);
    let n = cs.len();
    if n < 2 || cs[n - 1] != ')' {
        return Err(PluginError::QueryParseError);
    }
    let mut i: usize = 0;
    while i < n - 1 && cs[i] != '('
        invariant
            n == cs.len(),
            n >= 2,
            i <= n - 1,
            forall|j: int| 0 <= j < i ==> cs@[j] != '(',
        decreases n - 1 - i,
    {
        i += 1;
    }
    if i == n - 1 {
        return Err(PluginError::QueryParseError);
    }
    proof {
        assert(is_split_at(formula@, i as int));
        let c = choose|k: int| is_split_at(formula@, k);
        lemma_split_unique(formula@, i as int, c);
    }
    let name = substring(&cs, 0, i);
    let arguments = substring(&cs, i + 1, n - 1);
    proof {
        assert(cs@.subrange(0, i as int) =~= formula@.take(i as int));
    }
    Ok((name, arguments))
}

} // verus!
