use vstd::prelude::*;
use crate::error::Error;
use crate::path::Path;

verus! {

/// Wraps a backend-specific failure, reported by its message, into the
/// unified error taxonomy.
pub fn error(message: String) -> (r: Error)
    ensures
        r matches Error::Handler(m) && m@ == message@,
{
    Error::Handler(message)
}

/// Copies a name sequence; the copy denotes the same names.
pub(crate) fn clone_names(names: &Vec<String>) -> (r: Vec<String>)
    ensures
        r@ == names@,
{
    let mut out: Vec<String> = Vec::new();
    let mut i: usize = 0;
    while i < names.len()
        invariant
            i <= names@.len(),
            out@.len() == i,
            forall|j: int| 0 <= j < i ==> out@[j] == names@[j],
        decreases names@.len() - i,
    {
        out.push(names[i].clone());
        i += 1;
    }
    proof {
        assert(out@ =~= names@);
    }
    out
}

/// Copies a byte buffer; the copy denotes the same bytes.
pub(crate) fn clone_bytes(data: &Vec<u8>) -> (r: Vec<u8>)
    ensures
        r@ == data@,
{
    let mut out: Vec<u8> = Vec::new();
    let mut i: usize = 0;
    while i < data.len()
        invariant
            i <= data@.len(),
            out@.len() == i,
            forall|j: int| 0 <= j < i ==> out@[j] == data@[j],
        decreases data@.len() - i,
    {
        out.push(data[i]);
        i += 1;
    }
    proof {
        assert(out@ =~= data@);
    }
    out
}

/// The first value associated with `p`, scanning from the front.
pub(crate) open spec fn assoc_find<V>(s: Seq<(Path, V)>, p: Seq<Seq<char>>) -> Option<V>
    decreases s.len(),
{
    if s.len() == 0 {
        None
    } else if s[0].0@ == p {
        Some(s[0].1)
    } else {
        assoc_find(s.drop_first(), p)
    }
}

/// `assoc_find` succeeds exactly when some pair of the list carries the
/// key.
pub(crate) proof fn lemma_assoc_find_has_key<V>(s: Seq<(Path, V)>, p: Seq<Seq<char>>)
    ensures
        (assoc_find(s, p) is Some) <==> (exists|i: int| 0 <= i < s.len() && s[i].0@ == p),
    decreases s.len(),
{
    if s.len() == 0 {
    } else if s[0].0@ == p {
        assert(0 <= 0 < s.len() && s[0].0@ == p);
    } else {
        lemma_assoc_find_has_key(s.drop_first(), p);
        let rest = s.drop_first();
        if exists|i: int| 0 <= i < s.len() && s[i].0@ == p {
            let i = choose|i: int| 0 <= i < s.len() && s[i].0@ == p;
            assert(i != 0);
            assert(rest[i - 1] == s[i]);
            assert(0 <= i - 1 < rest.len() && rest[i - 1].0@ == p);
        }
        if exists|i: int| 0 <= i < rest.len() && rest[i].0@ == p {
            let i = choose|i: int| 0 <= i < rest.len() && rest[i].0@ == p;
            assert(s[i + 1] == rest[i]);
            assert(0 <= i + 1 < s.len() && s[i + 1].0@ == p);
        }
    }
}

/// The first value associated with `p` in `list`, scanning from the
/// front, as `assoc_find` describes.
pub(crate) fn assoc_get<'a, V>(list: &'a Vec<(Path, V)>, p: &Path) -> (r: Option<&'a V>)
    ensures
        r is Some <==> assoc_find(list@, p@) is Some,
        r matches Some(v) ==> assoc_find(list@, p@) == Some(*v),
{
    let n = list.len();
    let mut i: usize = 0;
    proof {
        assert(list@.skip(0int) =~= list@);
    }
    while i < n
        invariant
            n == list@.len(),
            i <= n,
            assoc_find(list@, p@) == assoc_find(list@.skip(i as int), p@),
        decreases n - i,
    {
        proof {
            assert(list@.skip(i as int)[0] == list@[i as int]);
            assert(list@.skip(i as int).drop_first() =~= list@.skip(i + 1));
        }
        if list[i].0 == *p {
            return Some(&list[i].1);
        }
        i += 1;
    }
    proof {
        assert(list@.skip(n as int) =~= Seq::<(Path, V)>::empty());
    }
    None
}

} // verus!
