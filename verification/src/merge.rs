use vstd::prelude::*;

use crate::errors::SyncError;
use crate::ops::{dec_ops, decode_operations, enc_ops, encode_operations, OperationView, ViewOperation};
use crate::revision::{Revision, RevisionView};
use crate::view_pad::{
    apply_ops_spec, empty_pad, lemma_apply_ops_wf, DatabaseViewRevisionPad,
};

verus! {

/// Whether a revision's payload decodes into an operation sequence.
pub open spec fn revision_decodable(rv: RevisionView) -> bool {
    dec_ops(rv.bytes, 0) is Some
}

/// Whether every revision in the list decodes.
pub open spec fn all_decodable(revs: Seq<RevisionView>) -> bool {
    forall|i: int| 0 <= i < revs.len() ==> revision_decodable(#[trigger] revs[i])
}

/// The operations of an ordered revision list, concatenated in order: later
/// revisions' operations come after, and therefore override, earlier ones.
pub open spec fn ops_of_revisions(revs: Seq<RevisionView>) -> Seq<OperationView>
    decreases revs.len(),
{
    if revs.len() == 0 {
        Seq::empty()
    } else {
        ops_of_revisions(revs.drop_last()) + (dec_ops(revs.last().bytes, 0))->Some_0
    }
}

/// The one canonical byte blob a pending revision list is compacted to: the
/// encoding of all its operations, in order. A pure function of the revision
/// list, so merging the same list always yields byte-identical output.
pub open spec fn combine_spec(revs: Seq<RevisionView>) -> Seq<u8> {
    enc_ops(ops_of_revisions(revs))
}

/// The pad a revision list deserializes to: every operation replayed, in
/// order, over the empty pad. A pure function of the ordered input, so the
/// same input always rebuilds the identical pad.
pub open spec fn deserialize_spec(revs: Seq<RevisionView>) -> crate::view_pad::PadView {
    apply_ops_spec(empty_pad(), ops_of_revisions(revs))
}

/// Replaying concatenated operations is replaying the first part, then the
/// second.
pub proof fn lemma_apply_ops_concat(
    p: crate::view_pad::PadView,
    a: Seq<OperationView>,
    b: Seq<OperationView>,
)
    ensures
        apply_ops_spec(p, a + b) == apply_ops_spec(apply_ops_spec(p, a), b),
    decreases b.len(),
{
    if b.len() == 0 {
        assert(a + b =~= a);
    } else {
        assert((a + b).drop_last() =~= a + b.drop_last());
        assert((a + b).last() == b.last());
        lemma_apply_ops_concat(p, a, b.drop_last());
    }
}

/// Merging is deterministic: the merged bytes are a function of the ordered
/// revision list alone, so equal inputs merge to byte-identical output.
pub proof fn lemma_combine_deterministic(a: Seq<RevisionView>, b: Seq<RevisionView>)
    requires
        a == b,
    ensures
        combine_spec(a) == combine_spec(b),
{
}

/// The revision serializer: rebuilds a pad from an ordered revision list and
/// compacts a pending revision list into one canonical payload.
pub struct DatabaseViewRevisionSerde;

impl DatabaseViewRevisionSerde {
    /// Replays the revisions' operations in order over an empty pad. Fails
    /// with a serialization error exactly when some revision's payload is
    /// malformed; malformed bytes are surfaced, never dropped.
    pub fn deserialize_revisions(_object_id: &Vec<u8>, revisions: Vec<Revision>) -> (r: Result<
        DatabaseViewRevisionPad,
        SyncError,
    >)
        ensures
            r is Ok <==> all_decodable(revisions@.map_values(|x: Revision| x@)),
            r is Ok ==> (r->Ok_0)@ == deserialize_spec(revisions@.map_values(|x: Revision| x@))
                && (r->Ok_0).wf(),
            r is Err ==> r->Err_0 == SyncError::Serialization,
    {
        let ghost revs = revisions@.map_values(|x: Revision| x@);
        let mut pad = DatabaseViewRevisionPad::new();
        let mut k: usize = 0;
        proof {
            assert(revs.take(0) =~= Seq::<RevisionView>::empty());
        }
        while k < revisions.len()
            invariant
                k <= revisions.len(),
                revs == revisions@.map_values(|x: Revision| x@),
                pad@ == apply_ops_spec(empty_pad(), ops_of_revisions(revs.take(k as int))),
                forall|i: int| 0 <= i < k ==> revision_decodable(#[trigger] revs[i]),
            decreases revisions.len() - k,
        {
            proof {
                assert(revs[k as int] == revisions@[k as int]@);
            }
            match decode_operations(&revisions[k].bytes, 0) {
                None => {
                    proof {
                        assert(!revision_decodable(revs[k as int]));
                    }
                    return Err(SyncError::Serialization);
                },
                Some(ops) => {
                    let ghost opsv = ops@.map_values(|o: ViewOperation| o@);
                    let ghost pad_before = pad@;
                    let mut j: usize = 0;
                    proof {
                        assert(opsv.take(0) =~= Seq::<OperationView>::empty());
                    }
                    while j < ops.len()
                        invariant
                            j <= ops.len(),
                            opsv == ops@.map_values(|o: ViewOperation| o@),
                            pad@ == apply_ops_spec(pad_before, opsv.take(j as int)),
                        decreases ops.len() - j,
                    {
                        proof {
                            assert(opsv.take(j + 1).drop_last() =~= opsv.take(j as int));
                            assert(opsv.take(j + 1).last() == opsv[j as int]);
                            assert(opsv[j as int] == ops@[j as int]@);
                        }
                        pad.apply_operation(ops[j].clone());
                        j += 1;
                    }
                    proof {
                        assert(opsv.take(opsv.len() as int) =~= opsv);
                        assert(revs.take(k + 1).drop_last() =~= revs.take(k as int));
                        assert(revs.take(k + 1).last() == revs[k as int]);
                        lemma_apply_ops_concat(
                            empty_pad(),
                            ops_of_revisions(revs.take(k as int)),
                            opsv,
                        );
                    }
                },
            }
            k += 1;
        }
        proof {
            assert(revs.take(revs.len() as int) =~= revs);
            lemma_apply_ops_wf(empty_pad(), ops_of_revisions(revs));
        }
        Ok(pad)
    }

    /// Best-effort reconstruction after corruption is not attempted in this
    /// core: the caller treats the absent result as "start empty", never as
    /// a fatal error.
    pub fn recover_from_revisions(_revisions: Vec<Revision>) -> (r: Option<(
        DatabaseViewRevisionPad,
        i64,
    )>)
        ensures
            r is None,
    {
        None
    }

    /// Merges an ordered run of pending revisions into one canonical byte
    /// blob holding their operations in order: later operations override
    /// earlier ones at the operation granularity. Fails with a serialization
    /// error exactly when some revision's payload is malformed.
    pub fn combine_revisions(revisions: Vec<Revision>) -> (r: Result<Vec<u8>, SyncError>)
        ensures
            r is Ok <==> all_decodable(revisions@.map_values(|x: Revision| x@)),
            r is Ok ==> (r->Ok_0)@ == combine_spec(revisions@.map_values(|x: Revision| x@)),
            r is Err ==> r->Err_0 == SyncError::Serialization,
    {
        let ghost revs = revisions@.map_values(|x: Revision| x@);
        let mut all_ops: Vec<ViewOperation> = Vec::new();
        let mut k: usize = 0;
        proof {
            assert(revs.take(0) =~= Seq::<RevisionView>::empty());
            assert(all_ops@.map_values(|o: ViewOperation| o@) =~= ops_of_revisions(revs.take(0)));
        }
        while k < revisions.len()
            invariant
                k <= revisions.len(),
                revs == revisions@.map_values(|x: Revision| x@),
                all_ops@.map_values(|o: ViewOperation| o@) == ops_of_revisions(revs.take(k as int)),
                forall|i: int| 0 <= i < k ==> revision_decodable(#[trigger] revs[i]),
            decreases revisions.len() - k,
        {
            proof {
                assert(revs[k as int] == revisions@[k as int]@);
            }
            match decode_operations(&revisions[k].bytes, 0) {
                None => {
                    proof {
                        assert(!revision_decodable(revs[k as int]));
                    }
                    return Err(SyncError::Serialization);
                },
                Some(ops) => {
                    let ghost prev = all_ops@.map_values(|o: ViewOperation| o@);
                    let ghost opsv = ops@.map_values(|o: ViewOperation| o@);
                    let mut ops = ops;
                    all_ops.append(&mut ops);
                    proof {
                        assert(all_ops@.map_values(|o: ViewOperation| o@) =~= prev + opsv);
                        assert(revs.take(k + 1).drop_last() =~= revs.take(k as int));
                        assert(revs.take(k + 1).last() == revs[k as int]);
                    }
                },
            }
            k += 1;
        }
        proof {
            assert(revs.take(revs.len() as int) =~= revs);
        }
        Ok(encode_operations(&all_ops))
    }
}

/// The merge hook the commit protocol compacts pending revisions through:
/// it defers to the serializer's canonical merge.
pub struct DatabaseViewRevisionMergeable;

impl DatabaseViewRevisionMergeable {
    pub fn combine_revisions(&self, revisions: Vec<Revision>) -> (r: Result<Vec<u8>, SyncError>)
        ensures
            r is Ok <==> all_decodable(revisions@.map_values(|x: Revision| x@)),
            r is Ok ==> (r->Ok_0)@ == combine_spec(revisions@.map_values(|x: Revision| x@)),
            r is Err ==> r->Err_0 == SyncError::Serialization,
    {
        DatabaseViewRevisionSerde::combine_revisions(revisions)
    }
}

} // verus!
