use vstd::prelude::*;
use crate::coerce::views;
use crate::field::{Field, FieldIndex};
use crate::value::{value_eq, Value, ValueV};

verus! {

/// Two rows hold the same non-null value in field `j`.
pub open spec fn agree(r1: Seq<ValueV>, r2: Seq<ValueV>, j: int) -> bool {
    r1[j] == r2[j] && !(r1[j] is Null)
}

pub open spec fn has_primary(fields: Seq<Field>) -> bool {
    exists|i: int| 0 <= i < fields.len() && (#[trigger] fields[i]).primary
}

/// Fields `i` and `j` belong to the same compound unique index.
pub open spec fn same_compound(fields: Seq<Field>, i: int, j: int) -> bool {
    fields[i].index matches FieldIndex::CompoundUnique(a) && fields[j].index matches FieldIndex::CompoundUnique(b) && a@ == b@
}

pub open spec fn primary_conflict(fields: Seq<Field>, r1: Seq<ValueV>, r2: Seq<ValueV>) -> bool {
    has_primary(fields) && forall|j: int|
        0 <= j < fields.len() && (#[trigger] fields[j]).primary ==> agree(r1, r2, j)
}

pub open spec fn single_conflict(fields: Seq<Field>, r1: Seq<ValueV>, r2: Seq<ValueV>, i: int) -> bool {
    fields[i].index is Unique && agree(r1, r2, i)
}

pub open spec fn compound_conflict(fields: Seq<Field>, r1: Seq<ValueV>, r2: Seq<ValueV>, i: int) -> bool {
    fields[i].index is CompoundUnique && forall|j: int|
        0 <= j < fields.len() && #[trigger] same_compound(fields, i, j) ==> agree(r1, r2, j)
}

/// Two rows collide on some unique index: the primary index, a unique
/// field, or a compound unique index. Null never collides.
pub open spec fn conflict(fields: Seq<Field>, r1: Seq<ValueV>, r2: Seq<ValueV>) -> bool {
    ||| primary_conflict(fields, r1, r2)
    ||| exists|i: int| 0 <= i < fields.len() && #[trigger] single_conflict(fields, r1, r2, i)
    ||| exists|i: int| 0 <= i < fields.len() && #[trigger] compound_conflict(fields, r1, r2, i)
}

/// Two rows collide through field `i`: a primary field when they agree on
/// the whole primary index, or a unique field, or a member of a compound
/// unique index on which they agree.
pub open spec fn conflict_through(fields: Seq<Field>, r1: Seq<ValueV>, r2: Seq<ValueV>, i: int) -> bool {
    0 <= i < fields.len() && (fields[i].primary && primary_conflict(fields, r1, r2) || single_conflict(fields, r1, r2, i)
        || compound_conflict(fields, r1, r2, i))
}

/// No two distinct rows of a table collide.
pub open spec fn table_unique(fields: Seq<Field>, rows: Seq<Seq<ValueV>>) -> bool {
    forall|a: int, b: int|
        #![trigger rows[a], rows[b]]
        0 <= a < rows.len() && 0 <= b < rows.len() && a != b ==> !conflict(fields, rows[a], rows[b])
}

fn agree_exec(r1: &Vec<Value>, r2: &Vec<Value>, j: usize) -> (r: bool)
    requires
        j < r1@.len(),
        j < r2@.len(),
    ensures
        r == agree(views(r1@), views(r2@), j as int),
{
    let is_null = match &r1[j] {
        Value::Null => true,
        _ => false,
    };
    !is_null && value_eq(&r1[j], &r2[j])
}

fn same_compound_exec(fields: &Vec<Field>, i: usize, j: usize) -> (r: bool)
    requires
        i < fields@.len(),
        j < fields@.len(),
    ensures
        r == same_compound(fields@, i as int, j as int),
{
    match (&fields[i].index, &fields[j].index) {
        (FieldIndex::CompoundUnique(a), FieldIndex::CompoundUnique(b)) => *a == *b,
        _ => false,
    }
}

/// A field through which two rows collide, if they do.
pub fn find_conflict(fields: &Vec<Field>, r1: &Vec<Value>, r2: &Vec<Value>) -> (r: Option<usize>)
    requires
        r1@.len() == fields@.len(),
        r2@.len() == fields@.len(),
    ensures
        r is None <==> !conflict(fields@, views(r1@), views(r2@)),
        r matches Some(i) ==> i < fields@.len() && conflict_through(fields@, views(r1@), views(r2@), i as int),
{
    let ghost v1 = views(r1@);
    let ghost v2 = views(r2@);
    // the primary index
    let mut first_primary: Option<usize> = None;
    let mut all_agree = true;
    let mut j: usize = 0;
    while j < fields.len()
        invariant
            0 <= j <= fields.len(),
            r1@.len() == fields@.len(),
            r2@.len() == fields@.len(),
            v1 == views(r1@),
            v2 == views(r2@),
            first_primary is None <==> forall|a: int| 0 <= a < j ==> !(#[trigger] fields@[a]).primary,
            first_primary matches Some(p) ==> p < j && fields@[p as int].primary,
            all_agree <==> forall|a: int|
                0 <= a < j && (#[trigger] fields@[a]).primary ==> agree(v1, v2, a),
        decreases fields.len() - j,
    {
        if fields[j].primary {
            if first_primary.is_none() {
                first_primary = Some(j);
            }
            if !agree_exec(r1, r2, j) {
                all_agree = false;
            }
        }
        j = j + 1;
    }
    match first_primary {
        Some(p) => {
            if all_agree {
                proof {
                    assert(fields@[p as int].primary);
                    assert(primary_conflict(fields@, v1, v2));
                }
                return Some(p);
            }
        },
        None => {},
    }
    let mut i: usize = 0;
    while i < fields.len()
        invariant
            0 <= i <= fields.len(),
            r1@.len() == fields@.len(),
            r2@.len() == fields@.len(),
            v1 == views(r1@),
            v2 == views(r2@),
            !primary_conflict(fields@, v1, v2),
            forall|a: int| 0 <= a < i ==> !(#[trigger] single_conflict(fields@, v1, v2, a)),
            forall|a: int| 0 <= a < i ==> !(#[trigger] compound_conflict(fields@, v1, v2, a)),
        decreases fields.len() - i,
    {
        match &fields[i].index {
            FieldIndex::Unique => {
                if agree_exec(r1, r2, i) {
                    proof {
                        assert(single_conflict(fields@, v1, v2, i as int));
                    }
                    return Some(i);
                }
            },
            FieldIndex::CompoundUnique(_) => {
                let mut every = true;
                let mut k: usize = 0;
                while k < fields.len()
                    invariant
                        0 <= k <= fields.len(),
                        0 <= i < fields.len(),
                        r1@.len() == fields@.len(),
                        r2@.len() == fields@.len(),
                        v1 == views(r1@),
                        v2 == views(r2@),
                        every <==> forall|b: int|
                            0 <= b < k && #[trigger] same_compound(fields@, i as int, b) ==> agree(v1, v2, b),
                    decreases fields.len() - k,
                {
                    if same_compound_exec(fields, i, k) && !agree_exec(r1, r2, k) {
                        every = false;
                    }
                    k = k + 1;
                }
                if every {
                    proof {
                        assert(compound_conflict(fields@, v1, v2, i as int));
                    }
                    return Some(i);
                }
            },
            _ => {},
        }
        i = i + 1;
    }
    None
}

/// The positions named by a filter form a unique index: exactly the
/// primary fields, one unique field, or exactly the members of one compound
/// unique index.
pub open spec fn is_unique_key_set(fields: Seq<Field>, s: Set<int>) -> bool {
    ||| has_primary(fields) && s == Set::new(|j: int| 0 <= j < fields.len() && fields[j].primary)
    ||| exists|i: int| 0 <= i < fields.len() && (#[trigger] fields[i]).index is Unique && s == set![i]
    ||| exists|i: int|
        0 <= i < fields.len() && (#[trigger] fields[i]).index is CompoundUnique && s == Set::new(
            |j: int| 0 <= j < fields.len() && same_compound(fields, i, j),
        )
}

pub open spec fn pos_set(pos: Seq<usize>) -> Set<int> {
    Set::new(|j: int| exists|e: int| 0 <= e < pos.len() && pos[e] == j)
}

fn contains_pos(pos: &Vec<usize>, j: usize) -> (r: bool)
    ensures
        r == pos_set(pos@).contains(j as int),
{
    let mut e: usize = 0;
    while e < pos.len()
        invariant
            0 <= e <= pos.len(),
            forall|a: int| 0 <= a < e ==> (#[trigger] pos@[a]) != j,
        decreases pos.len() - e,
    {
        if pos[e] == j {
            proof {
                assert(pos@[e as int] == j);
            }
            return true;
        }
        e = e + 1;
    }
    false
}

/// Whether distinct field positions form a unique index; see
/// [`is_unique_key_set`].
pub fn unique_key_set(fields: &Vec<Field>, pos: &Vec<usize>) -> (r: bool)
    requires
        forall|e: int| 0 <= e < pos@.len() ==> (#[trigger] pos@[e]) < fields@.len(),
        pos@.len() > 0,
    ensures
        r == is_unique_key_set(fields@, pos_set(pos@)),
{
    let n = fields.len();
    let ghost s = pos_set(pos@);
    // exactly the primary fields
    let mut ok = true;
    let mut e: usize = 0;
    while e < pos.len()
        invariant
            0 <= e <= pos.len(),
            forall|a: int| 0 <= a < pos@.len() ==> (#[trigger] pos@[a]) < fields@.len(),
            ok <==> forall|a: int| 0 <= a < e ==> fields@[(#[trigger] pos@[a]) as int].primary,
        decreases pos.len() - e,
    {
        if !fields[pos[e]].primary {
            ok = false;
        }
        e = e + 1;
    }
    let mut covered = true;
    let mut j: usize = 0;
    while j < n
        invariant
            0 <= j <= n,
            n == fields@.len(),
            s == pos_set(pos@),
            covered <==> forall|a: int| 0 <= a < j && (#[trigger] fields@[a]).primary ==> s.contains(a),
        decreases n - j,
    {
        if fields[j].primary && !contains_pos(pos, j) {
            covered = false;
        }
        j = j + 1;
    }
    let ok = ok && covered;
    let ghost pset = Set::new(|j: int| 0 <= j < fields@.len() && fields@[j].primary);
    if ok {
        proof {
            assert(fields@[pos@[0] as int].primary);
            assert(s =~= pset);
        }
        return true;
    }
    let p0 = pos[0];
    proof {
        assert(s.contains(p0 as int));
        if has_primary(fields@) && s == pset {
            assert forall|a: int| 0 <= a < pos@.len() implies fields@[(#[trigger] pos@[a]) as int].primary by {
                assert(s.contains(pos@[a] as int));
            }
            assert forall|a: int| 0 <= a < n && (#[trigger] fields@[a]).primary implies s.contains(a) by {
                assert(pset.contains(a));
            }
        }
    }
    // one unique field
    match &fields[p0].index {
        FieldIndex::Unique => {
            let mut all_same = true;
            let mut e: usize = 0;
            while e < pos.len()
                invariant
                    0 <= e <= pos.len(),
                    all_same <==> forall|a: int| 0 <= a < e ==> (#[trigger] pos@[a]) == p0,
                decreases pos.len() - e,
            {
                if pos[e] != p0 {
                    all_same = false;
                }
                e = e + 1;
            }
            if all_same {
                proof {
                    assert(s =~= set![p0 as int]);
                }
                return true;
            }
            proof {
                assert(!(has_primary(fields@) && s == pset));
                if exists|i: int| 0 <= i < fields@.len() && (#[trigger] fields@[i]).index is Unique && s == set![i] {
                    let i = choose|i: int| 0 <= i < fields@.len() && (#[trigger] fields@[i]).index is Unique && s == set![i];
                    assert(s.contains(p0 as int));
                    assert forall|a: int| 0 <= a < pos@.len() implies (#[trigger] pos@[a]) == p0 by {
                        assert(s.contains(pos@[a] as int));
                    }
                }
                if exists|i: int| 0 <= i < fields@.len() && (#[trigger] fields@[i]).index is CompoundUnique && s == Set::new(|j: int| 0 <= j < fields@.len() && same_compound(fields@, i, j)) {
                    let i = choose|i: int| 0 <= i < fields@.len() && (#[trigger] fields@[i]).index is CompoundUnique && s == Set::new(|j: int| 0 <= j < fields@.len() && same_compound(fields@, i, j));
                    assert(s.contains(p0 as int));
                }
            }
            false
        },
        FieldIndex::CompoundUnique(_) => {
            let mut good = true;
            let mut e: usize = 0;
            while e < pos.len()
                invariant
                    0 <= e <= pos.len(),
                    p0 < n,
                    n == fields@.len(),
                    forall|a: int| 0 <= a < pos@.len() ==> (#[trigger] pos@[a]) < fields@.len(),
                    good <==> forall|a: int| 0 <= a < e ==> same_compound(fields@, p0 as int, (#[trigger] pos@[a]) as int),
                decreases pos.len() - e,
            {
                if !same_compound_exec(fields, p0, pos[e]) {
                    good = false;
                }
                e = e + 1;
            }
            let mut covered = true;
            let mut j: usize = 0;
            while j < n
                invariant
                    0 <= j <= n,
                    p0 < n,
                    n == fields@.len(),
                    s == pos_set(pos@),
                    covered <==> forall|a: int| 0 <= a < j && #[trigger] same_compound(fields@, p0 as int, a) ==> s.contains(a),
                decreases n - j,
            {
                if same_compound_exec(fields, p0, j) && !contains_pos(pos, j) {
                    covered = false;
                }
                j = j + 1;
            }
            let good = good && covered;
            let ghost cset = Set::new(|j: int| 0 <= j < fields@.len() && same_compound(fields@, p0 as int, j));
            if good {
                proof {
                    assert forall|j: int| s.contains(j) implies cset.contains(j) by {
                        let e = choose|e: int| 0 <= e < pos@.len() && pos@[e] == j;
                        assert(same_compound(fields@, p0 as int, pos@[e] as int));
                    }
                    assert(s =~= cset);
                }
                return true;
            }
            proof {
                assert(!(has_primary(fields@) && s == pset));
                if exists|i: int| 0 <= i < fields@.len() && (#[trigger] fields@[i]).index is Unique && s == set![i] {
                    let i = choose|i: int| 0 <= i < fields@.len() && (#[trigger] fields@[i]).index is Unique && s == set![i];
                    assert(s.contains(p0 as int));
                }
                if exists|i: int| 0 <= i < fields@.len() && (#[trigger] fields@[i]).index is CompoundUnique && s == Set::new(|j: int| 0 <= j < fields@.len() && same_compound(fields@, i, j)) {
                    let i = choose|i: int| 0 <= i < fields@.len() && (#[trigger] fields@[i]).index is CompoundUnique && s == Set::new(|j: int| 0 <= j < fields@.len() && same_compound(fields@, i, j));
                    assert(s.contains(p0 as int));
                    assert(same_compound(fields@, i, p0 as int));
                    assert forall|a: int| 0 <= a < pos@.len() implies same_compound(fields@, p0 as int, (#[trigger] pos@[a]) as int) by {
                        assert(s.contains(pos@[a] as int));
                    }
                    assert forall|a: int| 0 <= a < n && #[trigger] same_compound(fields@, p0 as int, a) implies s.contains(a) by {
                        assert(same_compound(fields@, i, a));
                    }
                }
            }
            false
        },
        _ => {
            proof {
                assert(!(has_primary(fields@) && s == pset));
                if exists|i: int| 0 <= i < fields@.len() && (#[trigger] fields@[i]).index is Unique && s == set![i] {
                    let i = choose|i: int| 0 <= i < fields@.len() && (#[trigger] fields@[i]).index is Unique && s == set![i];
                    assert(s.contains(p0 as int));
                }
                if exists|i: int| 0 <= i < fields@.len() && (#[trigger] fields@[i]).index is CompoundUnique && s == Set::new(|j: int| 0 <= j < fields@.len() && same_compound(fields@, i, j)) {
                    let i = choose|i: int| 0 <= i < fields@.len() && (#[trigger] fields@[i]).index is CompoundUnique && s == Set::new(|j: int| 0 <= j < fields@.len() && same_compound(fields@, i, j));
                    assert(s.contains(p0 as int));
                }
            }
            false
        },
    }
}

} // verus!
