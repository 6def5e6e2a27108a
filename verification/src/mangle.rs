//! Mangled names: a function name with the types of an overload.
use vstd::prelude::*;
use crate::text::{copy_string, push_char, push_str};
use crate::types::{lemma_tys_v, ty_v, tys_v, AtomType, TyV};
use crate::typestr::{push_ty, ty_str};

verus! {

/// The index of the first `c` in `s`, or its length where there is none.
pub open spec fn first_index(s: Seq<char>, c: char) -> int
    decreases s.len(),
{
    if s.len() == 0 {
        0
    } else if s[0] == c {
        0
    } else {
        1 + first_index(s.drop_first(), c)
    }
}

/// `first_index` is the position of the first `c`, or the length.
pub proof fn lemma_first_index(s: Seq<char>, c: char, i: int)
    requires
        0 <= i <= s.len(),
        forall|j: int| 0 <= j < i ==> s[j] != c,
        i == s.len() || s[i] == c,
    ensures
        first_index(s, c) == i,
    decreases s.len(),
{
    if s.len() > 0 && i > 0 {
        lemma_first_index(s.drop_first(), c, i - 1);
    }
}

/// A character of a written type as it appears in a mangled name: brackets
/// become two underscores and commas one.
pub open spec fn mangle_char(c: char) -> Seq<char> {
    if c == '(' || c == ')' {
        "__"@
    } else if c == ',' {
        "_"@
    } else {
        seq![c]
    }
}

/// A written type as it appears in a mangled name.
pub open spec fn mangle_chars(s: Seq<char>) -> Seq<char>
    decreases s.len(),
{
    if s.len() == 0 {
        Seq::empty()
    } else {
        mangle_chars(s.drop_last()) + mangle_char(s.last())
    }
}

/// The mangled types of an overload, separated by `_`.
pub open spec fn mangled_list(ts: Seq<TyV>) -> Seq<char>
    decreases ts.len(),
{
    if ts.len() == 0 {
        Seq::empty()
    } else if ts.len() == 1 {
        mangle_chars(ty_str(ts[0]))
    } else {
        mangled_list(ts.drop_last()) + "_"@ + mangle_chars(ty_str(ts.last()))
    }
}

/// The mangled name of `name` with argument types `ts`: the name cut at its
/// first `$`, then `$`, then `empty` where there are no types, or the mangled
/// types separated by `_`.
pub open spec fn mangled(name: Seq<char>, ts: Seq<TyV>) -> Seq<char> {
    name.subrange(0, first_index(name, '$')) + "$"@ + if ts.len() == 0 {
        "empty"@
    } else {
        mangled_list(ts)
    }
}

/// Appends a written type as it appears in a mangled name.
fn push_mangled(s: &mut String, t: &String)
    ensures
        final(s)@ == old(s)@ + mangle_chars(t@),
{
    let ghost start = s@;
    let n = t.as_str().unicode_len();
    let mut i: usize = 0;
    assert(t@.subrange(0, 0) =~= Seq::<char>::empty());
    while i < n
        invariant
            n == t@.len(),
            i <= n,
            s@ == start + mangle_chars(t@.subrange(0, i as int)),
        decreases n - i,
    {
        let c = t.as_str().get_char(i);
        if c == '(' || c == ')' {
            push_str(s, "__");
        } else if c == ',' {
            push_str(s, "_");
        } else {
            push_char(s, c);
        }
        proof {
            let sub = t@.subrange(0, i + 1);
            assert(sub.drop_last() =~= t@.subrange(0, i as int));
            assert(s@ =~= start + mangle_chars(sub));
        }
        i = i + 1;
    }
    assert(t@.subrange(0, n as int) =~= t@);
}

/// The name of the overload of `name` for argument types `types`; any
/// earlier mangling of `name` is removed first.
pub fn type_mangle(name: String, types: Vec<AtomType>) -> (r: String)
    ensures
        r@ == mangled(name@, tys_v(types@)),
{
    let ghost nm = name@;
    let n = name.as_str().unicode_len();
    let mut cut: usize = 0;
    while cut < n && name.as_str().get_char(cut) != '$'
        invariant
            n == nm.len(),
            nm == name@,
            cut <= n,
            forall|j: int| 0 <= j < cut ==> nm[j] != '$',
        decreases n - cut,
    {
        cut = cut + 1;
    }
    proof {
        lemma_first_index(nm, '$', cut as int);
    }
    let mut mangle = String::new();
    let mut i: usize = 0;
    while i < cut
        invariant
            n == nm.len(),
            nm == name@,
            i <= cut <= n,
            mangle@ == nm.subrange(0, i as int),
        decreases cut - i,
    {
        push_char(&mut mangle, name.as_str().get_char(i));
        assert(mangle@ =~= nm.subrange(0, i + 1));
        i = i + 1;
    }
    push_str(&mut mangle, "$");
    let ghost prefix = mangle@;
    let ghost e = tys_v(types@);
    proof {
        lemma_tys_v(types@);
    }
    if types.len() == 0 {
        push_str(&mut mangle, "empty");
    } else {
        assert(mangle@ =~= prefix + mangled_list(e.subrange(0, 0)));
        let mut first = true;
        let mut k: usize = 0;
        while k < types.len()
            invariant
                k <= types.len(),
                e == tys_v(types@),
                e.len() == types@.len(),
                forall|j: int| 0 <= j < types@.len() ==> #[trigger] e[j] == ty_v(types@[j]),
                first == (k == 0),
                mangle@ == prefix + mangled_list(e.subrange(0, k as int)),
            decreases types.len() - k,
        {
            let ghost before = mangle@;
            if !first {
                push_char(&mut mangle, '_');
            } else {
                first = false;
            }
            let ghost mid = mangle@;
            let written = types[k].to_string();
            push_mangled(&mut mangle, &written);
            proof {
                let sub = e.subrange(0, k + 1);
                assert(written@ == ty_str(e[k as int]));
                assert(mangle@ == mid + mangle_chars(ty_str(e[k as int])));
                assert(sub.drop_last() =~= e.subrange(0, k as int));
                assert(sub.last() == e[k as int]);
                if k == 0 {
                    assert(sub.len() == 1);
                    assert(sub[0] == e[0]);
                    assert(mangled_list(e.subrange(0, 0)) =~= Seq::<char>::empty());
                    assert(mid =~= prefix);
                } else {
                    reveal_strlit("_");
                    assert(mid =~= before + "_"@);
                }
                assert(mangle@ =~= prefix + mangled_list(sub));
            }
            k = k + 1;
        }
        assert(e.subrange(0, e.len() as int) =~= e);
    }
    assert(mangle@ =~= mangled(nm, e));
    mangle
}

/// `s` split at each `c`, as `str::split` splits it: `k + 1` pieces for `k`
/// occurrences, some of them empty.
pub open spec fn split_on(s: Seq<char>, c: char) -> Seq<Seq<char>>
    decreases s.len(),
{
    if s.len() == 0 {
        seq![Seq::<char>::empty()]
    } else if s.last() == c {
        split_on(s.drop_last(), c).push(Seq::empty())
    } else {
        let r = split_on(s.drop_last(), c);
        r.update(r.len() - 1, r.last().push(s.last()))
    }
}

/// A split always has at least one piece.
pub proof fn lemma_split_on_len(s: Seq<char>, c: char)
    ensures
        split_on(s, c).len() >= 1,
    decreases s.len(),
{
    if s.len() > 0 {
        lemma_split_on_len(s.drop_last(), c);
    }
}

/// The type names of a mangled name: what follows its first `$`, split at each `_`.
pub fn mangle_types(mangle: String) -> (r: Vec<String>)
    requires
        exists|i: int| 0 <= i < mangle@.len() && mangle@[i] == '$',
    ensures
        r@.map_values(|x: String| x@) == split_on(
            mangle@.subrange(first_index(mangle@, '$') + 1, mangle@.len() as int),
            '_',
        ),
{
    let ghost m = mangle@;
    let n = mangle.as_str().unicode_len();
    let mut d: usize = 0;
    while d < n && mangle.as_str().get_char(d) != '$'
        invariant
            n == m.len(),
            m == mangle@,
            d <= n,
            forall|j: int| 0 <= j < d ==> m[j] != '$',
        decreases n - d,
    {
        d = d + 1;
    }
    proof {
        if d == n {
            let w = choose|i: int| 0 <= i < m.len() && m[i] == '$';
            assert(m[w] == '$');
        }
        lemma_first_index(m, '$', d as int);
    }
    let ghost rest = m.subrange(d + 1, n as int);
    let mut pieces: Vec<String> = Vec::new();
    let mut current = String::new();
    let mut i: usize = d + 1;
    assert(rest.subrange(0, 0) =~= Seq::<char>::empty());
    while i < n
        invariant
            n == m.len(),
            m == mangle@,
            d < n,
            rest == m.subrange(d + 1, n as int),
            d + 1 <= i <= n,
            pieces@.map_values(|x: String| x@).push(current@) == split_on(rest.subrange(0, i - (d + 1)), '_'),
        decreases n - i,
    {
        let ch = mangle.as_str().get_char(i);
        let ghost before = rest.subrange(0, i - (d + 1));
        let ghost old_pieces = pieces@.map_values(|x: String| x@);
        let ghost old_current = current@;
        if ch == '_' {
            let done = current;
            pieces.push(done);
            current = String::new();
            assert(pieces@.map_values(|x: String| x@) =~= old_pieces.push(old_current));
        } else {
            push_char(&mut current, ch);
            assert(pieces@.map_values(|x: String| x@) =~= old_pieces);
        }
        proof {
            let after = rest.subrange(0, i + 1 - (d + 1));
            assert(after.drop_last() =~= before);
            assert(after.last() == ch);
            lemma_split_on_len(before, '_');
            assert(pieces@.map_values(|x: String| x@).push(current@) =~= split_on(after, '_'));
        }
        i = i + 1;
    }
    let ghost old_pieces = pieces@.map_values(|x: String| x@);
    pieces.push(current);
    assert(pieces@.map_values(|x: String| x@) =~= old_pieces.push(pieces@.last()@));
    assert(rest.subrange(0, n - (d + 1)) =~= rest);
    pieces
}

} // verus!
