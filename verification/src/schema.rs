//! Schema versions: a database records the version it is at, migration `i`
//! (counting from zero) brings it to version `i + 1`, and bringing it up to
//! date applies exactly the migrations above its version, in order.

use vstd::prelude::*;

verus! {

/// The versions still to apply, in order, to a database at `current` when
/// `count` migrations exist: every version from 1 to `count` above `current`.
pub open spec fn pending_versions(current: i64, count: nat) -> Seq<i64> {
    let start: int = if current < 0 {
        1
    } else {
        current + 1
    };
    let n: int = if count as int >= start {
        count as int - start + 1
    } else {
        0
    };
    Seq::new(n as nat, |i: int| (start + i) as i64)
}

/// The version a database at `current` is at once brought up to date.
pub open spec fn version_after(current: i64, count: nat) -> i64 {
    if pending_versions(current, count).len() > 0 {
        count as i64
    } else {
        current
    }
}

/// The versions to apply to a database at `current` when `count`
/// migrations exist.
pub fn migrations_to_apply(current: i64, count: usize) -> (r: Vec<i64>)
    requires
        count < i64::MAX,
    ensures
        r@ == pending_versions(current, count as nat),
{
    let mut r: Vec<i64> = Vec::new();
    let mut idx: usize = 0;
    let ghost start: int = if current < 0 {
        1
    } else {
        current + 1
    };
    while idx < count
        invariant
            idx <= count < i64::MAX,
            start == (if current < 0 {
                1
            } else {
                current + 1
            }),
            r@.len() == (if idx as int >= start {
                idx as int - start + 1
            } else {
                0
            }),
            forall|k: int| 0 <= k < r@.len() ==> #[trigger] r@[k] == start + k,
        decreases count - idx,
    {
        let version = (idx + 1) as i64;
        if version > current {
            r.push(version);
        }
        idx = idx + 1;
    }
    assert(r@ =~= pending_versions(current, count as nat));
    r
}

/// Bringing the schema up to date is idempotent: a database brought up to
/// date has nothing left to apply, and is at the latest version unless it
/// was past it already.
pub proof fn lemma_migrations_idempotent(current: i64, count: nat)
    requires
        count < i64::MAX,
    ensures
        pending_versions(version_after(current, count), count).len() == 0,
        version_after(version_after(current, count), count) == version_after(current, count),
        version_after(current, count) == (if current < count as int && count > 0 {
            count as i64
        } else {
            current
        }),
{
}

} // verus!
