//! What commands promise of each other when run one after another on the
//! same keyspaces.

use crate::command::{run, CommandModel};
use crate::frame::FrameModel;
use crate::keyspace::{
    has_key, lemma_unique_after, lookup, space_index, unique_keys, Evictor, ManagerModel,
};
use vstd::prelude::*;

verus! {

/// Every keyspace of `m` holds each key once.
pub open spec fn keys_unique(m: ManagerModel) -> bool {
    forall|i: int| 0 <= i < m.spaces.len() ==> unique_keys(#[trigger] m.spaces[i].entries)
}

/// A keyspace `name` exists in `m`.
pub open spec fn exists_space(m: ManagerModel, name: Seq<char>) -> bool {
    space_index(m, name) is Some && m.names.len() == m.spaces.len()
}

proof fn lemma_index_in_range(m: ManagerModel, name: Seq<char>)
    requires
        space_index(m, name) is Some,
    ensures
        0 <= space_index(m, name)->Some_0 < m.names.len(),
        m.names[space_index(m, name)->Some_0] == name,
{
}

/// SET, GET and DEL on an existing keyspace keep the names, keep that
/// keyspace where it is, and keep keys unique.
proof fn lemma_run_keeps(m: ManagerModel, c: CommandModel)
    requires
        keys_unique(m),
        m.names.len() == m.spaces.len(),
        c !is Create,
    ensures
        run(m, c).0.names == m.names,
        run(m, c).0.spaces.len() == m.spaces.len(),
        keys_unique(run(m, c).0),
{
    let m2 = run(m, c).0;
    match c {
        CommandModel::Get { keyspace, key } => {
            if let Some(i) = space_index(m, keyspace) {
                lemma_index_in_range(m, keyspace);
                lemma_unique_after(m.spaces[i].entries, key, Seq::empty(), m.spaces[i].clock);
            }
        },
        CommandModel::SetValue { keyspace, key, value } => {
            if let Some(i) = space_index(m, keyspace) {
                lemma_index_in_range(m, keyspace);
                lemma_unique_after(m.spaces[i].entries, key, value, m.spaces[i].clock);
            }
        },
        CommandModel::Del { keyspace, key } => {
            if let Some(i) = space_index(m, keyspace) {
                lemma_index_in_range(m, keyspace);
                lemma_unique_after(m.spaces[i].entries, key, Seq::empty(), m.spaces[i].clock);
            }
        },
        _ => {},
    }
    assert forall|j: int| 0 <= j < m2.spaces.len() implies unique_keys(#[trigger] m2.spaces[j].entries) by {
        assert(unique_keys(m.spaces[j].entries));
    }
}

/// After SET k v1 and SET k v2 on keyspace `ks`, GET k answers v2.
pub proof fn lemma_last_set_wins(
    m: ManagerModel,
    ks: Seq<char>,
    k: Seq<char>,
    v1: Seq<u8>,
    v2: Seq<u8>,
)
    requires
        keys_unique(m),
        exists_space(m, ks),
    ensures
        ({
            let m1 = run(m, CommandModel::SetValue { keyspace: ks, key: k, value: v1 }).0;
            let m2 = run(m1, CommandModel::SetValue { keyspace: ks, key: k, value: v2 }).0;
            run(m2, CommandModel::Get { keyspace: ks, key: k }).1 == FrameModel::Blob(v2)
        }),
{
    let c1 = CommandModel::SetValue { keyspace: ks, key: k, value: v1 };
    let m1 = run(m, c1).0;
    lemma_run_keeps(m, c1);
    let c2 = CommandModel::SetValue { keyspace: ks, key: k, value: v2 };
    let m2 = run(m1, c2).0;
    assert(space_index(m1, ks) == space_index(m, ks));
    let i = space_index(m, ks)->Some_0;
    lemma_index_in_range(m, ks);
    assert(unique_keys(m1.spaces[i].entries));
    lemma_unique_after(m1.spaces[i].entries, k, v2, m1.spaces[i].clock);
    assert(space_index(m2, ks) == space_index(m, ks)) by {
        lemma_run_keeps(m1, c2);
    }
}

/// After SET k v, the first DEL k answers 1; after it, GET k answers null
/// and a second DEL k answers 0.
pub proof fn lemma_deleted_stays_deleted(m: ManagerModel, ks: Seq<char>, k: Seq<char>, v: Seq<u8>)
    requires
        keys_unique(m),
        exists_space(m, ks),
    ensures
        ({
            let m1 = run(m, CommandModel::SetValue { keyspace: ks, key: k, value: v }).0;
            let (m2, first) = run(m1, CommandModel::Del { keyspace: ks, key: k });
            &&& first == FrameModel::Integer(1)
            &&& run(m2, CommandModel::Get { keyspace: ks, key: k }).1 == FrameModel::Null
            &&& run(m2, CommandModel::Del { keyspace: ks, key: k }).1 == FrameModel::Integer(0)
        }),
{
    let c1 = CommandModel::SetValue { keyspace: ks, key: k, value: v };
    let m1 = run(m, c1).0;
    lemma_run_keeps(m, c1);
    let i = space_index(m, ks)->Some_0;
    lemma_index_in_range(m, ks);
    assert(space_index(m1, ks) == space_index(m, ks));
    lemma_unique_after(m.spaces[i].entries, k, v, m.spaces[i].clock);
    let c2 = CommandModel::Del { keyspace: ks, key: k };
    let m2 = run(m1, c2).0;
    lemma_run_keeps(m1, c2);
    assert(space_index(m2, ks) == space_index(m, ks));
    lemma_unique_after(m1.spaces[i].entries, k, Seq::empty(), m1.spaces[i].clock);
    assert(!has_key(m2.spaces[i].entries, k));
    assert(lookup(m2.spaces[i].entries, k) is None);
}

/// CREATE of a name that exists answers 0 and changes nothing: the
/// keyspace keeps the evictor and sample size it was created with.
pub proof fn lemma_create_once(
    m: ManagerModel,
    name: Seq<char>,
    e1: Evictor,
    s1: Option<int>,
    e2: Evictor,
    s2: Option<int>,
)
    ensures
        ({
            let (m1, _) = run(m, CommandModel::Create { keyspace: name, evictor: e1, sample_size: s1 });
            run(m1, CommandModel::Create { keyspace: name, evictor: e2, sample_size: s2 }) == (
                m1,
                FrameModel::Integer(0),
            )
        }),
{
    let m1 = run(m, CommandModel::Create { keyspace: name, evictor: e1, sample_size: s1 }).0;
    if space_index(m, name) is None {
        assert(m1.names[m1.names.len() - 1] == name);
        assert(exists|i: int| 0 <= i < m1.names.len() && m1.names[i] == name);
    }
}

} // verus!
