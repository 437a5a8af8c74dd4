//! Character-level helpers on identifiers and keys.

use vstd::prelude::*;

verus! {

/// The part of a service identifier before its first `@`.
pub open spec fn base_name(s: Seq<char>) -> Seq<char>
    decreases s.len(),
{
    if s.len() == 0 || s[0] == '@' {
        Seq::empty()
    } else {
        seq![s[0]] + base_name(s.drop_first())
    }
}

/// Whether a base name follows the plugin naming convention (`plugin...`).
pub open spec fn is_plugin_name(n: Seq<char>) -> bool {
    &&& n.len() >= 6
    &&& n[0] == 'p'
    &&& n[1] == 'l'
    &&& n[2] == 'u'
    &&& n[3] == 'g'
    &&& n[4] == 'i'
    &&& n[5] == 'n'
}

proof fn lemma_base_name_prefix(s: Seq<char>, i: int)
    requires
        0 <= i <= s.len(),
        i < s.len() ==> s[i] == '@',
        forall|j: int| 0 <= j < i ==> s[j] != '@',
    ensures
        base_name(s) == s.take(i),
    decreases s.len(),
{
    if s.len() == 0 || s[0] == '@' {
        assert(s.take(i) =~= Seq::<char>::empty());
    } else {
        let t = s.drop_first();
        assert forall|j: int| 0 <= j < i - 1 implies t[j] != '@' by {
            assert(s[j + 1] != '@');
        }
        lemma_base_name_prefix(t, i - 1);
        assert(s.take(i) =~= seq![s[0]] + t.take(i - 1));
    }
}

/// Character-wise equality of two strings.
pub fn same_text(a: &str, b: &str) -> (r: bool)
    ensures
        r == (a@ == b@),
{
    let n = a.unicode_len();
    if n != b.unicode_len() {
        return false;
    }
    let mut i: usize = 0;
    while i < n
        invariant
            n == a@.len(),
            n == b@.len(),
            i <= n,
            forall|j: int| 0 <= j < i ==> a@[j] == b@[j],
        decreases n - i,
    {
        if a.get_char(i) != b.get_char(i) {
            return false;
        }
        i = i + 1;
    }
    assert(a@ =~= b@);
    true
}

/// The base name of a service identifier: the text before its first `@`,
/// or the whole identifier when it has none.
pub fn split_base_name(s: &str) -> (r: &str)
    ensures
        r@ == base_name(s@),
{
    let n = s.unicode_len();
    let mut i: usize = 0;
    while i < n && s.get_char(i) != '@'
        invariant
            n == s@.len(),
            i <= n,
            forall|j: int| 0 <= j < i ==> s@[j] != '@',
        decreases n - i,
    {
        i = i + 1;
    }
    proof {
        lemma_base_name_prefix(s@, i as int);
    }
    s.substring_char(0, i)
}

/// Whether a base name follows the plugin naming convention.
pub fn has_plugin_prefix(n: &str) -> (r: bool)
    ensures
        r == is_plugin_name(n@),
{
    if n.unicode_len() < 6 {
        return false;
    }
    n.get_char(0) == 'p' && n.get_char(1) == 'l' && n.get_char(2) == 'u' && n.get_char(3) == 'g'
        && n.get_char(4) == 'i' && n.get_char(5) == 'n'
}

} // verus!
