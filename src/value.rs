//! The structured document that profiles are read from and written to: a tree of
//! strings, booleans and tables whose entries keep their order.
use vstd::prelude::*;

verus! {

/// One value of a profiles document.
#[derive(Debug)]
pub enum Value {
    Str(String),
    Bool(bool),
    /// Ordered entries, each a key and its value.
    Table(Vec<(String, Value)>),
    /// Any other kind of value (a number, an array, a date): no field accepts one.
    Other,
}

/// The entries of a table.
pub type Entries = Seq<(String, Value)>;

/// No key occurs twice among the entries.
pub open spec fn keys_distinct(es: Entries) -> bool {
    forall|i: int, j: int| 0 <= i < j < es.len() ==> (#[trigger] es[i]).0@ != (#[trigger] es[j]).0@
}

/// Some entry has key `k`.
pub open spec fn has_key(es: Entries, k: Seq<char>) -> bool {
    exists|i: int| 0 <= i < es.len() && es[i].0@ == k
}

/// The value under key `k`, where the keys are distinct and `k` is present.
pub open spec fn value_at(es: Entries, k: Seq<char>) -> Value
    recommends
        has_key(es, k),
{
    es[choose|i: int| 0 <= i < es.len() && es[i].0@ == k].1
}

/// Every key is one of `allowed`.
pub open spec fn keys_within(es: Entries, allowed: Seq<Seq<char>>) -> bool {
    forall|i: int| 0 <= i < es.len() ==> allowed.contains(#[trigger] es[i].0@)
}

/// Where the keys are distinct, the value under the key of an entry is that
/// entry's value.
pub proof fn lemma_value_at_entry(es: Entries, i: int)
    requires
        keys_distinct(es),
        0 <= i < es.len(),
    ensures
        has_key(es, es[i].0@),
        value_at(es, es[i].0@) == es[i].1,
{
    let k = es[i].0@;
    assert(0 <= i < es.len() && es[i].0@ == k);
    let c = choose|a: int| 0 <= a < es.len() && es[a].0@ == k;
    assert(0 <= c < es.len() && es[c].0@ == k);
    if c < i {
        assert(es[c].0@ != es[i].0@);
    } else if c > i {
        assert(es[i].0@ != es[c].0@);
    }
}

/// Whether `k` holds the same text as `lit`.
pub fn text_is(k: &String, lit: &str) -> (r: bool)
    ensures
        r == (k@ == lit@),
{
    let l = String::from_str(lit);
    k.eq(&l)
}

/// Whether no key occurs twice among the entries.
pub fn check_keys_distinct(es: &Vec<(String, Value)>) -> (r: bool)
    ensures
        r == keys_distinct(es@),
{
    let mut j: usize = 0;
    while j < es.len()
        invariant
            0 <= j <= es@.len(),
            forall|a: int, b: int| 0 <= a < b < j ==> es@[a].0@ != es@[b].0@,
        decreases es@.len() - j,
    {
        let mut i: usize = 0;
        while i < j
            invariant
                0 <= i <= j < es@.len(),
                forall|a: int| 0 <= a < i ==> es@[a].0@ != es@[j as int].0@,
            decreases j - i,
        {
            if es[i].0.eq(&es[j].0) {
                return false;
            }
            i = i + 1;
        }
        j = j + 1;
    }
    true
}

/// The position of the entry with key `k`, where the keys are distinct.
pub fn find_key(es: &Vec<(String, Value)>, k: &str) -> (r: Option<usize>)
    requires
        keys_distinct(es@),
    ensures
        r is Some <==> has_key(es@, k@),
        r matches Some(i) ==> i < es@.len() && es@[i as int].0@ == k@ && value_at(es@, k@)
            == es@[i as int].1,
{
    let mut i: usize = 0;
    while i < es.len()
        invariant
            0 <= i <= es@.len(),
            keys_distinct(es@),
            forall|a: int| 0 <= a < i ==> es@[a].0@ != k@,
        decreases es@.len() - i,
    {
        if text_is(&es[i].0, k) {
            assert(0 <= i < es@.len() && es@[i as int].0@ == k@);
            let ghost c = choose|a: int| 0 <= a < es@.len() && es@[a].0@ == k@;
            assert(c == i as int) by {
                assert(0 <= c < es@.len() && es@[c].0@ == k@);
                if c > i as int {
                    assert(es@[i as int].0@ != es@[c].0@);
                }
            }
            return Some(i);
        }
        i = i + 1;
    }
    None
}

} // verus!
