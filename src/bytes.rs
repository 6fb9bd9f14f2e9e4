use vstd::prelude::*;

verus! {

/// True when `names` holds an entry whose bytes are `name`.
pub open spec fn contains_name(names: Seq<Vec<u8>>, name: Seq<u8>) -> bool {
    exists|i: int| 0 <= i < names.len() && #[trigger] names[i]@ == name
}

/// The byte strings held by `names`.
pub open spec fn names_view(names: Seq<Vec<u8>>) -> Seq<Seq<u8>> {
    names.map_values(|v: Vec<u8>| v@)
}

/// Compares two byte strings.
pub fn bytes_eq(a: &Vec<u8>, b: &Vec<u8>) -> (r: bool)
    ensures
        r == (a@ == b@),
{
    if a.len() != b.len() {
        return false;
    }
    let mut i: usize = 0;
    while i < a.len()
        invariant
            0 <= i <= a.len(),
            a.len() == b.len(),
            forall|j: int| 0 <= j < i ==> a@[j] == b@[j],
        decreases a.len() - i,
    {
        if a[i] != b[i] {
            return false;
        }
        i = i + 1;
    }
    assert(a@ =~= b@);
    true
}

/// Copies a byte string.
pub fn copy_bytes(a: &Vec<u8>) -> (r: Vec<u8>)
    ensures
        r@ == a@,
{
    let mut r: Vec<u8> = Vec::new();
    let mut i: usize = 0;
    while i < a.len()
        invariant
            0 <= i <= a.len(),
            r@ == a@.subrange(0, i as int),
        decreases a.len() - i,
    {
        r.push(a[i]);
        i = i + 1;
        assert(r@ =~= a@.subrange(0, i as int));
    }
    assert(a@.subrange(0, a.len() as int) =~= a@);
    r
}

/// Appends the bytes of `b` to `out`.
pub fn append_bytes(out: &mut Vec<u8>, b: &Vec<u8>)
    ensures
        final(out)@ == old(out)@ + b@,
{
    let ghost start = out@;
    let mut i: usize = 0;
    while i < b.len()
        invariant
            0 <= i <= b.len(),
            out@ == start + b@.subrange(0, i as int),
        decreases b.len() - i,
    {
        out.push(b[i]);
        i = i + 1;
        assert(out@ =~= start + b@.subrange(0, i as int));
    }
    assert(b@.subrange(0, b.len() as int) =~= b@);
}

/// Copies a list of byte strings.
pub fn copy_names(a: &Vec<Vec<u8>>) -> (r: Vec<Vec<u8>>)
    ensures
        names_view(r@) == names_view(a@),
{
    let mut r: Vec<Vec<u8>> = Vec::new();
    let mut i: usize = 0;
    while i < a.len()
        invariant
            0 <= i <= a.len(),
            names_view(r@) == names_view(a@).subrange(0, i as int),
        decreases a.len() - i,
    {
        let c = copy_bytes(&a[i]);
        let ghost prev = r@;
        r.push(c);
        assert(names_view(r@) =~= names_view(prev).push(c@));
        i = i + 1;
        assert(names_view(r@) =~= names_view(a@).subrange(0, i as int));
    }
    assert(names_view(a@).subrange(0, a.len() as int) =~= names_view(a@));
    r
}

/// Tells whether `names` holds `name`.
pub fn names_contain(names: &Vec<Vec<u8>>, name: &Vec<u8>) -> (r: bool)
    ensures
        r == contains_name(names@, name@),
{
    let mut i: usize = 0;
    while i < names.len()
        invariant
            0 <= i <= names.len(),
            forall|j: int| 0 <= j < i ==> names@[j]@ != name@,
        decreases names.len() - i,
    {
        if bytes_eq(&names[i], name) {
            return true;
        }
        i = i + 1;
    }
    false
}

/// `names` without the entries equal to `name`.
pub fn without(names: &Vec<Vec<u8>>, name: &Vec<u8>) -> (r: Vec<Vec<u8>>)
    ensures
        forall|t: Seq<u8>| #[trigger] contains_name(r@, t) <==> (t != name@ && contains_name(names@, t)),
        r@.len() <= names@.len(),
{
    let mut kept: Vec<Vec<u8>> = Vec::new();
    let mut i: usize = 0;
    while i < names.len()
        invariant
            0 <= i <= names.len(),
            kept@.len() <= i,
            forall|t: Seq<u8>|
                #[trigger] contains_name(kept@, t) <==> (t != name@ && exists|j: int|
                    0 <= j < i && #[trigger] names@[j]@ == t),
        decreases names.len() - i,
    {
        let ghost prev = kept@;
        if !bytes_eq(&names[i], name) {
            let c = copy_bytes(&names[i]);
            kept.push(c);
        }
        assert forall|t: Seq<u8>|
            #[trigger] contains_name(kept@, t) <==> (t != name@ && exists|j: int|
                0 <= j < i + 1 && #[trigger] names@[j]@ == t) by {
            if contains_name(kept@, t) {
                let k = choose|k: int| 0 <= k < kept@.len() && #[trigger] kept@[k]@ == t;
                if k < prev.len() {
                    assert(contains_name(prev, t));
                    let j = choose|j: int| 0 <= j < i && #[trigger] names@[j]@ == t;
                    assert(names@[j]@ == t);
                } else {
                    assert(names@[i as int]@ == t);
                }
            }
            if t != name@ && exists|j: int| 0 <= j < i + 1 && #[trigger] names@[j]@ == t {
                let j = choose|j: int| 0 <= j < i + 1 && #[trigger] names@[j]@ == t;
                if j < i {
                    assert(contains_name(prev, t));
                    let k = choose|k: int| 0 <= k < prev.len() && #[trigger] prev[k]@ == t;
                    assert(kept@[k]@ == t);
                } else {
                    assert(kept@[prev.len() as int]@ == t);
                }
            }
        }
        i = i + 1;
    }
    assert forall|t: Seq<u8>| #[trigger] contains_name(kept@, t) <==> (t != name@ && contains_name(names@, t)) by {
        assert(contains_name(names@, t) <==> exists|j: int| 0 <= j < names@.len() && #[trigger] names@[j]@ == t);
    }
    kept
}

/// Compares two lists of byte strings entry by entry.
pub fn names_eq(a: &Vec<Vec<u8>>, b: &Vec<Vec<u8>>) -> (r: bool)
    ensures
        r == (names_view(a@) == names_view(b@)),
{
    if a.len() != b.len() {
        return false;
    }
    let mut i: usize = 0;
    while i < a.len()
        invariant
            0 <= i <= a.len(),
            a.len() == b.len(),
            forall|j: int| 0 <= j < i ==> #[trigger] a@[j]@ == b@[j]@,
        decreases a.len() - i,
    {
        if !bytes_eq(&a[i], &b[i]) {
            assert(names_view(a@)[i as int] != names_view(b@)[i as int]);
            return false;
        }
        i = i + 1;
    }
    assert(names_view(a@) =~= names_view(b@));
    true
}

} // verus!
