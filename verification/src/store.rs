//! The recipe store: creation, publication and the public subset.
//!
//! The collection itself is persisted elsewhere (read whole, write whole);
//! these operations are the pure core of every read-modify-write cycle.
//! Ids are assigned as `max(existing) + 1`, or `0` for an empty store, and
//! are never reused; `publish` flips `public` to `true` for the matching
//! id and is idempotent; `public_subset` filters to the published entries.

use vstd::prelude::*;

use crate::types::Recipe;

verus! {

/// The largest id in the collection, `0` if it is empty.
pub open spec fn max_id(rs: Seq<Recipe>) -> nat
    decreases rs.len(),
{
    if rs.len() == 0 {
        0
    } else {
        let rest = max_id(rs.drop_last());
        let last = rs.last().id as nat;
        if last > rest {
            last
        } else {
            rest
        }
    }
}

/// The id the next created recipe receives: `max(existing) + 1`, or `0`
/// when the store is empty.
pub open spec fn next_id(rs: Seq<Recipe>) -> nat {
    if rs.len() == 0 {
        0
    } else {
        max_id(rs) + 1
    }
}

/// The collection after `publish(id)`: every entry whose id matches has
/// `public` set to `true`; every other entry is unchanged.
pub open spec fn publish_mark(rs: Seq<Recipe>, id: usize) -> Seq<Recipe> {
    rs.map(
        |k: int, r: Recipe|
            if r.id == id {
                (Recipe {
                    id: r.id,
                    name: r.name,
                    ingredients: r.ingredients,
                    instructions: r.instructions,
                    public: true,
                })
            } else {
                r
            },
    )
}

/// No existing id reaches `max_id`'s successor.
proof fn lemma_max_id_is_bound(rs: Seq<Recipe>)
    ensures
        forall|k: int| 0 <= k < rs.len() ==> (#[trigger] rs[k].id) as nat <= max_id(rs),
    decreases rs.len(),
{
    if rs.len() > 0 {
        lemma_max_id_is_bound(rs.drop_last());
        assert forall|k: int| 0 <= k < rs.len() implies ((#[trigger] rs[k].id) as nat) <= max_id(
            rs,
        ) by {
            if k < rs.len() - 1 {
                assert(rs.drop_last()[k] == rs[k]);
            } else {
                assert(rs.last() == rs[k]);
            }
        }
    }
}

/// Ids returned by successive `create` calls form a strictly increasing
/// sequence relative to store content: the next id starts at `0` on an
/// empty store, exceeds every id already present, and appending the newly
/// created entry drives the following id strictly higher still.
pub proof fn lemma_create_ids_strictly_increase(rs: Seq<Recipe>, r: Recipe)
    requires
        r.id as nat == next_id(rs),
    ensures
        rs.len() == 0 ==> next_id(rs) == 0,
        forall|k: int| 0 <= k < rs.len() ==> ((#[trigger] rs[k].id) as nat) < next_id(rs),
        next_id(rs.push(r)) == r.id as nat + 1,
{
    lemma_max_id_is_bound(rs);
    let rs2 = rs.push(r);
    assert(rs2.drop_last() =~= rs);
    assert(rs2.last() == r);
    if rs.len() > 0 {
        assert(max_id(rs2) == r.id as nat);
    }
}

/// Publishing is idempotent: marking the same id twice produces the same
/// collection as marking it once.
pub proof fn lemma_publish_idempotent(rs: Seq<Recipe>, id: usize)
    ensures
        publish_mark(publish_mark(rs, id), id) == publish_mark(rs, id),
{
    assert(publish_mark(publish_mark(rs, id), id) =~= publish_mark(rs, id));
}

/// Publishing an id that no entry carries leaves the collection unchanged.
pub proof fn lemma_publish_absent_id(rs: Seq<Recipe>, id: usize)
    requires
        forall|k: int| 0 <= k < rs.len() ==> (#[trigger] rs[k].id) != id,
    ensures
        publish_mark(rs, id) == rs,
{
    assert(publish_mark(rs, id) =~= rs);
}

/// A published entry never reverts: `publish` only ever sets `public`.
pub proof fn lemma_publish_never_reverts(rs: Seq<Recipe>, id: usize, k: int)
    requires
        0 <= k < rs.len(),
    ensures
        rs[k].public ==> publish_mark(rs, id)[k].public,
{
}

/// The id `create` will assign, `None` if it would not fit in `usize`.
fn compute_next_id(recipes: &Vec<Recipe>) -> (r: Option<usize>)
    ensures
        match r {
            Some(id) => id as nat == next_id(recipes@),
            None => next_id(recipes@) > usize::MAX,
        },
{
    let n = recipes.len();
    if n == 0 {
        return Some(0);
    }
    let mut best: usize = 0;
    let mut i: usize = 0;
    while i < n
        invariant
            0 < n == recipes@.len(),
            i <= n,
            i == 0 ==> best == 0,
            i > 0 ==> best as nat == max_id(recipes@.subrange(0, i as int)),
        decreases n - i,
    {
        let ghost prefix = recipes@.subrange(0, i as int);
        let id = recipes[i].id;
        if i == 0 || id > best {
            best = id;
        }
        proof {
            let longer = recipes@.subrange(0, i as int + 1);
            assert(longer.drop_last() =~= prefix);
            assert(longer.last() == recipes@[i as int]);
            if i == 0 {
                assert(max_id(prefix) == 0);
            }
            assert(max_id(longer) == if ((recipes@[i as int].id as nat) > max_id(prefix)) {
                recipes@[i as int].id as nat
            } else {
                max_id(prefix)
            });
        }
        i += 1;
    }
    proof {
        assert(recipes@.subrange(0, n as int) =~= recipes@);
    }
    best.checked_add(1)
}

/// Appends a new recipe with the next id and `public == false`, and
/// returns a copy of it.  The caller persists the whole collection after.
///
/// The one precondition is a machine limit: the next id must fit in
/// `usize`.
pub fn create(
    recipes: &mut Vec<Recipe>,
    name: String,
    ingredients: String,
    instructions: String,
) -> (r: Recipe)
    requires
        next_id(old(recipes)@) <= usize::MAX,
    ensures
        r.id as nat == next_id(old(recipes)@),
        r.name == name,
        r.ingredients == ingredients,
        r.instructions == instructions,
        r.public == false,
        final(recipes)@ == old(recipes)@.push(r),
{
    let id = match compute_next_id(recipes) {
        Some(id) => id,
        None => 0,  // unreachable: the precondition makes compute_next_id succeed
    };
    let created = Recipe { id, name, ingredients, instructions, public: false };
    let copy = created.clone();
    recipes.push(created);
    copy
}

/// Sets `public = true` on every entry matching `id`.  A missing id is a
/// no-op, not an error.  The caller persists the whole collection after.
pub fn publish(recipes: &mut Vec<Recipe>, id: usize)
    ensures
        final(recipes)@ == publish_mark(old(recipes)@, id),
{
    let n = recipes.len();
    let mut out: Vec<Recipe> = Vec::new();
    let mut i: usize = 0;
    while i < n
        invariant
            n == recipes@.len(),
            i <= n,
            out@.len() == i,
            forall|k: int| 0 <= k < i ==> out@[k] == publish_mark(recipes@, id)[k],
        decreases n - i,
    {
        let entry = &recipes[i];
        if entry.id == id {
            out.push(
                Recipe {
                    id: entry.id,
                    name: entry.name.clone(),
                    ingredients: entry.ingredients.clone(),
                    instructions: entry.instructions.clone(),
                    public: true,
                },
            );
        } else {
            out.push(entry.clone());
        }
        i += 1;
    }
    proof {
        assert(out@ =~= publish_mark(recipes@, id));
    }
    *recipes = out;
}

/// The published entries, in store order.  Never includes an entry with
/// `public == false`.
pub fn public_subset(recipes: &Vec<Recipe>) -> (r: Vec<Recipe>)
    ensures
        r@ == recipes@.filter(|x: Recipe| x.public),
        forall|k: int| 0 <= k < r@.len() ==> (#[trigger] r@[k]).public,
{
    broadcast use vstd::seq_lib::group_filter_ensures;

    let n = recipes.len();
    let mut out: Vec<Recipe> = Vec::new();
    let mut i: usize = 0;
    proof {
        reveal_with_fuel(Seq::<_>::filter, 1);
        assert(recipes@.subrange(0, 0) =~= Seq::<Recipe>::empty());
    }
    while i < n
        invariant
            n == recipes@.len(),
            i <= n,
            out@ == recipes@.subrange(0, i as int).filter(|x: Recipe| x.public),
        decreases n - i,
    {
        let ghost prefix = recipes@.subrange(0, i as int);
        let ghost longer = recipes@.subrange(0, i as int + 1);
        proof {
            reveal_with_fuel(Seq::<_>::filter, 2);
            assert(longer.drop_last() =~= prefix);
            assert(longer.last() == recipes@[i as int]);
        }
        if recipes[i].public {
            out.push(recipes[i].clone());
        }
        i += 1;
    }
    proof {
        assert(recipes@.subrange(0, n as int) =~= recipes@);
    }
    out
}

} // verus!
