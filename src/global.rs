use vstd::prelude::*;

use crate::assets::{fits_i128, AssetMap, LedgerKey};
use crate::types::{AssetIdentifier, Error, PrincipalData, Value};

verus! {

/// What the store was asked to do with its nested transactions.
#[derive(Debug, PartialEq, Eq, Clone, Copy)]
pub enum DatabaseOp {
    Begin,
    Commit,
    RollBack,
}

/// How many transactions are open after `log`.
pub open spec fn open_depth(log: Seq<DatabaseOp>) -> int
    decreases log.len(),
{
    if log.len() == 0 {
        0
    } else {
        open_depth(log.drop_last()) + if log.last() is Begin {
            1int
        } else {
            -1int
        }
    }
}

/// No prefix of `log` closes more transactions than it opened.
pub open spec fn properly_nested(log: Seq<DatabaseOp>) -> bool
    decreases log.len(),
{
    log.len() == 0 || (properly_nested(log.drop_last()) && open_depth(log) >= 0)
}

/// Every begin of `log` is matched by one commit or roll-back.
pub open spec fn balanced(log: Seq<DatabaseOp>) -> bool {
    properly_nested(log) && open_depth(log) == 0
}

/// An operation on the frames of a transaction.
#[derive(Debug, PartialEq, Eq, Clone, Copy)]
pub enum FrameOp {
    Begin,
    BeginReadOnly,
    Commit,
    RollBack,
}

pub open spec fn opens_frame(op: FrameOp) -> bool {
    op is Begin || op is BeginReadOnly
}

/// How many frames are open after `ops`, from the top level.
pub open spec fn frame_depth(ops: Seq<FrameOp>) -> int
    decreases ops.len(),
{
    if ops.len() == 0 {
        0
    } else {
        frame_depth(ops.drop_last()) + if opens_frame(ops.last()) {
            1int
        } else {
            -1int
        }
    }
}

/// No prefix of `ops` closes a frame that is not open.
pub open spec fn frames_nested(ops: Seq<FrameOp>) -> bool
    decreases ops.len(),
{
    ops.len() == 0 || (frames_nested(ops.drop_last()) && frame_depth(ops) >= 0)
}

/// What the store is asked for each frame operation: a begin for each frame
/// opened, and a commit or a roll-back for each frame closed.
pub open spec fn store_follows(ops: Seq<FrameOp>, log: Seq<DatabaseOp>) -> bool {
    &&& log.len() == ops.len()
    &&& forall|i: int| 0 <= i < ops.len() ==> (opens_frame(#[trigger] ops[i]) <==> log[i] is Begin)
}

/// A sequence of frame operations that closes every frame it opens, in
/// order, asks the store for an equally balanced sequence.
pub proof fn lemma_balanced_frames_balance_store(ops: Seq<FrameOp>, log: Seq<DatabaseOp>)
    requires
        frames_nested(ops),
        frame_depth(ops) == 0,
        store_follows(ops, log),
    ensures
        balanced(log),
{
    lemma_store_depth_follows(ops, log);
}

proof fn lemma_store_depth_follows(ops: Seq<FrameOp>, log: Seq<DatabaseOp>)
    requires
        store_follows(ops, log),
    ensures
        open_depth(log) == frame_depth(ops),
        frames_nested(ops) ==> properly_nested(log),
    decreases ops.len(),
{
    if ops.len() > 0 {
        let n = ops.len() - 1;
        assert(opens_frame(ops[n]) <==> log[n] is Begin);
        assert(store_follows(ops.drop_last(), log.drop_last())) by {
            assert forall|i: int| 0 <= i < ops.drop_last().len() implies (opens_frame(
                #[trigger] ops.drop_last()[i],
            ) <==> log.drop_last()[i] is Begin) by {
                assert(ops.drop_last()[i] == ops[i]);
                assert(log.drop_last()[i] == log[i]);
            }
        }
        lemma_store_depth_follows(ops.drop_last(), log.drop_last());
    }
}

/// The persistent store, seen through its nested transactions: the history
/// of what it was asked to begin, commit and roll back.
pub struct ClarityDatabase {
    log: Vec<DatabaseOp>,
}

impl ClarityDatabase {
    pub closed spec fn history(&self) -> Seq<DatabaseOp> {
        self.log@
    }

    pub fn begin(&mut self)
        ensures
            final(self).history() == old(self).history().push(DatabaseOp::Begin),
    {
        self.log.push(DatabaseOp::Begin);
    }

    pub fn commit(&mut self)
        ensures
            final(self).history() == old(self).history().push(DatabaseOp::Commit),
    {
        self.log.push(DatabaseOp::Commit);
    }

    pub fn roll_back(&mut self)
        ensures
            final(self).history() == old(self).history().push(DatabaseOp::RollBack),
    {
        self.log.push(DatabaseOp::RollBack);
    }
}

/// A store that keeps nothing beyond the session.
pub fn memory_db() -> (r: ClarityDatabase)
    ensures
        r.history() == Seq::<DatabaseOp>::empty(),
{
    ClarityDatabase { log: Vec::new() }
}

/// The frames of one transaction: for each, the assets it moved and whether
/// it may write; and the store, with one open transaction per frame.
pub struct GlobalContext {
    asset_maps: Vec<AssetMap>,
    pub database: ClarityDatabase,
    read_only: Vec<bool>,
}

impl GlobalContext {
    /// The asset ledger of each open frame, outermost first.
    pub closed spec fn frames(&self) -> Seq<AssetMap> {
        self.asset_maps@
    }

    /// Whether each open frame is read-only, outermost first.
    pub closed spec fn read_only_flags(&self) -> Seq<bool> {
        self.read_only@
    }

    pub closed spec fn well_formed(&self) -> bool {
        &&& self.asset_maps@.len() == self.read_only@.len()
        &&& open_depth(self.database.history()) == self.asset_maps@.len()
        &&& properly_nested(self.database.history())
        &&& forall|i: int| 0 <= i < self.asset_maps@.len() ==> (#[trigger] self.asset_maps@[i]).well_formed()
    }

    pub closed spec fn db(&self) -> ClarityDatabase {
        self.database
    }

    pub open spec fn top_level(&self) -> bool {
        self.frames().len() == 0
    }

    pub open spec fn read_only_spec(&self) -> bool {
        if self.read_only_flags().len() == 0 {
            false
        } else {
            self.read_only_flags().last()
        }
    }

    /// Going from `before` to `self` closed the top frame as a commit does:
    /// its ledger is folded into the parent's, lower frames are kept, and the
    /// store commits; or, where folding overflows (`failed`), the parent is
    /// kept as it was and the store rolls back. The outermost frame is
    /// always closed by a commit.
    pub open spec fn closes_by_commit(&self, before: &GlobalContext, failed: bool) -> bool {
        let n = before.frames().len();
        &&& self.frames().len() == n - 1
        &&& self.read_only_flags() == before.read_only_flags().drop_last()
        &&& failed <==> (n > 1 && before.frames()[n - 2].merge_overflows(&before.frames().last()))
        &&& failed ==> self.frames() == before.frames().drop_last() && self.db().history()
            == before.db().history().push(DatabaseOp::RollBack)
        &&& !failed ==> self.db().history() == before.db().history().push(DatabaseOp::Commit)
        &&& !failed && n > 1 ==> self.frames().drop_last() == before.frames().drop_last().drop_last()
            && self.frames().last().is_merge_of(&before.frames()[n - 2], &before.frames().last())
    }

    /// `self` is what `op` made of `before`: a frame more and a begin asked
    /// of the store, or a frame less and a commit or a roll-back asked of it.
    pub open spec fn steps_from(&self, before: &GlobalContext, op: FrameOp) -> bool {
        if opens_frame(op) {
            &&& self.frames().len() == before.frames().len() + 1
            &&& self.db().history() == before.db().history().push(DatabaseOp::Begin)
        } else {
            &&& self.frames().len() == before.frames().len() - 1
            &&& (self.db().history() == before.db().history().push(DatabaseOp::Commit)
                || self.db().history() == before.db().history().push(DatabaseOp::RollBack))
        }
    }

    pub fn new(database: ClarityDatabase) -> (r: GlobalContext)
        requires
            balanced(database.history()),
        ensures
            r.well_formed(),
            r.top_level(),
            r.db() == database,
    {
        GlobalContext { database, read_only: Vec::new(), asset_maps: Vec::new() }
    }

    pub fn is_top_level(&self) -> (r: bool)
        ensures
            r == self.top_level(),
    {
        self.asset_maps.len() == 0
    }

    /// Whether the current frame may not write; the top level is writable.
    pub fn is_read_only(&self) -> (r: bool)
        ensures
            r == self.read_only_spec(),
    {
        let n = self.read_only.len();
        if n == 0 {
            false
        } else {
            self.read_only[n - 1]
        }
    }

    fn push_frame(&mut self, read_only: bool)
        requires
            old(self).well_formed(),
        ensures
            final(self).well_formed(),
            final(self).frames().len() == old(self).frames().len() + 1,
            final(self).frames().drop_last() == old(self).frames(),
            forall|k: LedgerKey|
                !#[trigger] final(self).frames().last().has_tokens(k)
                    && !final(self).frames().last().has_transfers(k),
            final(self).read_only_flags() == old(self).read_only_flags().push(read_only),
            final(self).db().history() == old(self).db().history().push(DatabaseOp::Begin),
    {
        self.asset_maps.push(AssetMap::new());
        self.database.begin();
        self.read_only.push(read_only);
        proof {
            assert(self.asset_maps@.drop_last() =~= old(self).asset_maps@);
            assert(self.database.history().drop_last() =~= old(self).db().history());
            assert forall|i: int| 0 <= i < self.asset_maps@.len() implies (#[trigger] self.asset_maps@[i]).well_formed() by {
                if i < old(self).asset_maps@.len() {
                    assert(self.asset_maps@[i] == old(self).asset_maps@[i]);
                }
            }
        }
    }

    /// Opens a frame that may write exactly when the current one may.
    pub fn begin(&mut self)
        requires
            old(self).well_formed(),
        ensures
            final(self).well_formed(),
            final(self).frames().len() == old(self).frames().len() + 1,
            final(self).frames().drop_last() == old(self).frames(),
            forall|k: LedgerKey|
                !#[trigger] final(self).frames().last().has_tokens(k)
                    && !final(self).frames().last().has_transfers(k),
            final(self).read_only_flags() == old(self).read_only_flags().push(old(self).read_only_spec()),
            final(self).db().history() == old(self).db().history().push(DatabaseOp::Begin),
            final(self).steps_from(old(self), FrameOp::Begin),
    {
        let read_only = self.is_read_only();
        self.push_frame(read_only);
    }

    /// Opens a frame in which nothing may be written.
    pub fn begin_read_only(&mut self)
        requires
            old(self).well_formed(),
        ensures
            final(self).well_formed(),
            final(self).frames().len() == old(self).frames().len() + 1,
            final(self).frames().drop_last() == old(self).frames(),
            forall|k: LedgerKey|
                !#[trigger] final(self).frames().last().has_tokens(k)
                    && !final(self).frames().last().has_transfers(k),
            final(self).read_only_flags() == old(self).read_only_flags().push(true),
            final(self).db().history() == old(self).db().history().push(DatabaseOp::Begin),
            final(self).steps_from(old(self), FrameOp::BeginReadOnly),
    {
        self.push_frame(true);
    }

    /// Closes the current frame. Its ledger is folded into the parent's, or,
    /// where no parent is left, handed back. Where folding overflows, the
    /// store's transaction is rolled back and the parent keeps its ledger.
    pub fn commit(&mut self) -> (r: Result<Option<AssetMap>, Error>)
        requires
            old(self).well_formed(),
            old(self).frames().len() > 0,
        ensures
            final(self).well_formed(),
            final(self).frames().len() == old(self).frames().len() - 1,
            final(self).read_only_flags() == old(self).read_only_flags().drop_last(),
            final(self).closes_by_commit(old(self), r is Err),
            final(self).steps_from(old(self), FrameOp::Commit),
            old(self).frames().len() == 1 ==> r == Ok::<Option<AssetMap>, Error>(
                Some(old(self).frames()[0]),
            ) && final(self).db().history() == old(self).db().history().push(
                DatabaseOp::Commit,
            ),
            old(self).frames().len() > 1 ==> final(self).frames().drop_last() == old(
                self,
            ).frames().drop_last().drop_last(),
            old(self).frames().len() > 1 ==> (r is Err <==> old(self).frames()[old(self).frames().len()
                - 2].merge_overflows(&old(self).frames().last())),
            old(self).frames().len() > 1 && r is Err ==> r == Err::<Option<AssetMap>, Error>(
                Error::ArithmeticOverflow,
            ) && final(self).frames() == old(self).frames().drop_last()
                && final(self).db().history() == old(self).db().history().push(
                DatabaseOp::RollBack,
            ),
            old(self).frames().len() > 1 && r is Ok ==> r == Ok::<Option<AssetMap>, Error>(None)
                && final(self).frames().last().is_merge_of(
                &old(self).frames()[old(self).frames().len() - 2],
                &old(self).frames().last(),
            ) && final(self).db().history() == old(self).db().history().push(
                DatabaseOp::Commit,
            ),
    {
        self.read_only.pop();
        let popped = self.asset_maps.pop();
        let asset_map = match popped {
            Some(m) => m,
            None => {
                proof {
                    assert(false);
                }
                AssetMap::new()
            },
        };
        proof {
            assert(asset_map.well_formed()) by {
                assert(asset_map == old(self).asset_maps@[old(self).asset_maps@.len() - 1]);
            }
        }
        let n = self.asset_maps.len();
        if n > 0 {
            let ghost mid = self.asset_maps@;
            proof {
                assert(self.asset_maps@[n - 1].well_formed());
            }
            let res = self.asset_maps[n - 1].commit_other(asset_map);
            proof {
                assert forall|i: int| 0 <= i < self.asset_maps@.len() implies (#[trigger] self.asset_maps@[i]).well_formed() by {
                    if i < n - 1 {
                        assert(self.asset_maps@[i] == mid[i]);
                    }
                }
                assert(self.asset_maps@.drop_last() =~= mid.drop_last());
            }
            match res {
                Err(e) => {
                    self.database.roll_back();
                    proof {
                        assert(self.asset_maps@ =~= mid);
                        assert(self.database.history().drop_last() =~= old(self).db().history());
                    }
                    return Err(e);
                },
                Ok(()) => {},
            }
            self.database.commit();
            proof {
                assert(self.database.history().drop_last() =~= old(self).db().history());
            }
            Ok(None)
        } else {
            self.database.commit();
            proof {
                assert(self.database.history().drop_last() =~= old(self).db().history());
            }
            Ok(Some(asset_map))
        }
    }

    /// Closes the current frame, discarding its ledger.
    pub fn roll_back(&mut self)
        requires
            old(self).well_formed(),
            old(self).frames().len() > 0,
        ensures
            final(self).well_formed(),
            final(self).frames() == old(self).frames().drop_last(),
            final(self).read_only_flags() == old(self).read_only_flags().drop_last(),
            final(self).db().history() == old(self).db().history().push(DatabaseOp::RollBack),
            final(self).steps_from(old(self), FrameOp::RollBack),
    {
        self.asset_maps.pop();
        self.read_only.pop();
        self.database.roll_back();
        proof {
            assert(self.database.history().drop_last() =~= old(self).db().history());
            assert forall|i: int| 0 <= i < self.asset_maps@.len() implies (#[trigger] self.asset_maps@[i]).well_formed() by {
                assert(self.asset_maps@[i] == old(self).asset_maps@[i]);
            }
        }
    }

    /// Records a transfer of the non-fungible `transfered` in the current frame.
    pub fn log_asset_transfer(
        &mut self,
        sender: &PrincipalData,
        contract_name: &String,
        asset_name: &String,
        transfered: Value,
    )
        requires
            old(self).well_formed(),
            old(self).frames().len() > 0,
        ensures
            final(self).well_formed(),
            final(self).frames().len() == old(self).frames().len(),
            final(self).frames().drop_last() == old(self).frames().drop_last(),
            final(self).frames().last().is_transfer_added(
                &old(self).frames().last(),
                (sender.key(), (contract_name@, asset_name@)),
                transfered,
            ),
            final(self).read_only_flags() == old(self).read_only_flags(),
            final(self).db() == old(self).db(),
    {
        let asset_identifier = AssetIdentifier {
            contract_name: contract_name.clone(),
            asset_name: asset_name.clone(),
        };
        let n = self.asset_maps.len();
        proof {
            assert(self.asset_maps@[n - 1].well_formed());
        }
        self.asset_maps[n - 1].add_asset_transfer(sender, asset_identifier, transfered);
        proof {
            assert(self.asset_maps@.drop_last() =~= old(self).asset_maps@.drop_last());
            assert forall|i: int| 0 <= i < self.asset_maps@.len() implies (#[trigger] self.asset_maps@[i]).well_formed() by {
                if i < n - 1 {
                    assert(self.asset_maps@[i] == old(self).asset_maps@[i]);
                }
            }
        }
    }

    /// Adds `transfered` tokens spent by `sender` to the current frame, or
    /// fails with `ArithmeticOverflow`, changing nothing.
    pub fn log_token_transfer(
        &mut self,
        sender: &PrincipalData,
        contract_name: &String,
        asset_name: &String,
        transfered: i128,
    ) -> (r: Result<(), Error>)
        requires
            old(self).well_formed(),
            old(self).frames().len() > 0,
            transfered >= 0,
        ensures
            final(self).well_formed(),
            final(self).frames().len() == old(self).frames().len(),
            final(self).frames().drop_last() == old(self).frames().drop_last(),
            r is Ok <==> fits_i128(
                old(self).frames().last().token_amount((sender.key(), (contract_name@, asset_name@)))
                    + transfered,
            ),
            r is Err ==> r == Err::<(), Error>(Error::ArithmeticOverflow) && final(self).frames()
                == old(self).frames(),
            r is Ok ==> final(self).frames().last().is_token_added(
                &old(self).frames().last(),
                (sender.key(), (contract_name@, asset_name@)),
                transfered as int,
            ),
            final(self).read_only_flags() == old(self).read_only_flags(),
            final(self).db() == old(self).db(),
    {
        let asset_identifier = AssetIdentifier {
            contract_name: contract_name.clone(),
            asset_name: asset_name.clone(),
        };
        let n = self.asset_maps.len();
        proof {
            assert(self.asset_maps@[n - 1].well_formed());
        }
        let r = self.asset_maps[n - 1].add_token_transfer(sender, asset_identifier, transfered);
        proof {
            assert(self.asset_maps@.drop_last() =~= old(self).asset_maps@.drop_last());
            if r is Err {
                assert(self.asset_maps@ =~= old(self).asset_maps@);
            }
            assert forall|i: int| 0 <= i < self.asset_maps@.len() implies (#[trigger] self.asset_maps@[i]).well_formed() by {
                if i < n - 1 {
                    assert(self.asset_maps@[i] == old(self).asset_maps@[i]);
                }
            }
        }
        r
    }

    /// What concluding a transaction with `result` does, going from
    /// `before` to `self` and returning `r`: a response commits the frame
    /// when it says so and rolls it back otherwise, and is handed back; any
    /// other value is refused with `ContractMustReturnBoolean`, and an error
    /// is passed on; both roll the frame back.
    pub open spec fn concludes_tx(
        &self,
        before: &GlobalContext,
        result: Result<Value, Error>,
        r: Result<Value, Error>,
    ) -> bool {
        &&& self.frames().len() == before.frames().len() - 1
        &&& self.read_only_flags() == before.read_only_flags().drop_last()
        &&& match result {
                Ok(Value::Response { committed: true, data: _ }) => {
                    &&& self.closes_by_commit(before, r is Err)
                    &&& r is Ok ==> r == result && self.db().history() == before.db().history().push(DatabaseOp::Commit)
                    &&& r is Err ==> r == Err::<Value, Error>(Error::ArithmeticOverflow)
                        && self.db().history() == before.db().history().push(
                        DatabaseOp::RollBack,
                    )
                    &&& r is Err <==> before.frames().len() > 1 && before.frames()[before.frames().len() - 2].merge_overflows(&before.frames().last())
                },
                Ok(Value::Response { committed: false, data: _ }) => {
                    &&& r == result
                    &&& self.frames() == before.frames().drop_last()
                    &&& self.db().history() == before.db().history().push(
                        DatabaseOp::RollBack,
                    )
                },
                Ok(_) => {
                    &&& r == Err::<Value, Error>(Error::ContractMustReturnBoolean)
                    &&& self.frames() == before.frames().drop_last()
                    &&& self.db().history() == before.db().history().push(
                        DatabaseOp::RollBack,
                    )
                },
                Err(e) => {
                    &&& r == Err::<Value, Error>(e)
                    &&& self.frames() == before.frames().drop_last()
                    &&& self.db().history() == before.db().history().push(
                        DatabaseOp::RollBack,
                    )
                },
            }
    }

    /// Closes the frame opened (by `begin`) around some work, given what the
    /// work returned: a success is committed, and a failure rolled back and
    /// passed on.
    pub fn finish_execute<T>(&mut self, result: Result<T, Error>) -> (r: Result<T, Error>)
        requires
            old(self).well_formed(),
            old(self).frames().len() > 0,
        ensures
            final(self).well_formed(),
            match result {
                Ok(v) => final(self).closes_by_commit(old(self), r is Err) && (r is Ok ==> r == Ok::<T, Error>(v))
                    && (r is Err ==> r == Err::<T, Error>(Error::ArithmeticOverflow)),
                Err(e) => r == Err::<T, Error>(e) && final(self).frames() == old(self).frames().drop_last()
                    && final(self).read_only_flags() == old(self).read_only_flags().drop_last()
                    && final(self).db().history() == old(self).db().history().push(DatabaseOp::RollBack),
            },
    {
        match result {
            Ok(v) => match self.commit() {
                Ok(_) => Ok(v),
                Err(e) => Err(e),
            },
            Err(e) => {
                self.roll_back();
                Err(e)
            },
        }
    }

    /// Concludes a transaction from what it returned.
    pub fn handle_tx_result(&mut self, result: Result<Value, Error>) -> (r: Result<Value, Error>)
        requires
            old(self).well_formed(),
            old(self).frames().len() > 0,
        ensures
            final(self).well_formed(),
            final(self).concludes_tx(old(self), result, r),
    {
        match result {
            Ok(Value::Response { committed, data }) => {
                if committed {
                    match self.commit() {
                        Ok(_) => {},
                        Err(e) => {
                            return Err(e);
                        },
                    }
                } else {
                    self.roll_back();
                }
                Ok(Value::Response { committed, data })
            },
            Ok(_) => {
                self.roll_back();
                Err(Error::ContractMustReturnBoolean)
            },
            Err(e) => {
                self.roll_back();
                Err(e)
            },
        }
    }
}

/// Once every frame is closed, the store has been asked to close each
/// transaction it began, in a properly nested order.
pub proof fn lemma_top_level_store_balanced(g: &GlobalContext)
    requires
        g.well_formed(),
        g.top_level(),
    ensures
        balanced(g.db().history()),
{
}

/// Each frame operation moves the frame count and the store's count of open
/// transactions together: they stay equal, and the store's history stays
/// properly nested.
pub proof fn lemma_frames_match_store(g: &GlobalContext)
    requires
        g.well_formed(),
    ensures
        open_depth(g.db().history()) == g.frames().len(),
        properly_nested(g.db().history()),
        g.read_only_flags().len() == g.frames().len(),
{
}

/// `gs` is a run of `ops`: each state is what the operation made of the one
/// before.
pub open spec fn is_run(gs: Seq<GlobalContext>, ops: Seq<FrameOp>) -> bool {
    &&& gs.len() == ops.len() + 1
    &&& forall|i: int| 0 <= i < ops.len() ==> #[trigger] gs[i + 1].steps_from(&gs[i], ops[i])
}

proof fn lemma_run_prefix(gs: Seq<GlobalContext>, ops: Seq<FrameOp>, k: int)
    requires
        is_run(gs, ops),
        0 <= k <= ops.len(),
    ensures
        gs[k].frames().len() == gs[0].frames().len() + frame_depth(ops.subrange(0, k)),
        gs[k].db().history().len() == gs[0].db().history().len() + k,
        gs[k].db().history().subrange(0, gs[0].db().history().len() as int) == gs[0].db().history(),
        store_follows(
            ops.subrange(0, k),
            gs[k].db().history().subrange(
                gs[0].db().history().len() as int,
                gs[0].db().history().len() + k,
            ),
        ),
    decreases k,
{
    let h0 = gs[0].db().history().len() as int;
    if k == 0 {
        assert(ops.subrange(0, 0) =~= Seq::<FrameOp>::empty());
        assert(gs[0].db().history().subrange(0, h0) =~= gs[0].db().history());
    } else {
        lemma_run_prefix(gs, ops, k - 1);
        let i = k - 1;
        assert(gs[i + 1].steps_from(&gs[i], ops[i]));
        let pre = ops.subrange(0, k - 1);
        let cur = ops.subrange(0, k);
        assert(cur.drop_last() =~= pre);
        let hp = gs[k - 1].db().history();
        let hk = gs[k].db().history();
        assert(hk.subrange(0, h0) =~= hp.subrange(0, h0));
        let lp = hp.subrange(h0, h0 + k - 1);
        let lk = hk.subrange(h0, h0 + k);
        assert(lk =~= lp.push(hk[h0 + k - 1]));
        assert forall|i: int| 0 <= i < cur.len() implies (opens_frame(#[trigger] cur[i]) <==> lk[i] is Begin) by {
            if i < k - 1 {
                assert(cur[i] == pre[i]);
                assert(lk[i] == lp[i]);
                assert(opens_frame(pre[i]) <==> lp[i] is Begin);
            }
        }
    }
}

/// Any run from the top level of frame operations that closes every frame it
/// opens, in order, ends at the top level, with the store asked for one begin
/// per frame opened and one commit or roll-back per frame closed, in the same
/// order: a balanced sequence of its own.
pub proof fn lemma_balanced_run_returns_to_top_level(gs: Seq<GlobalContext>, ops: Seq<FrameOp>)
    requires
        is_run(gs, ops),
        gs[0].top_level(),
        frames_nested(ops),
        frame_depth(ops) == 0,
    ensures
        gs.last().top_level(),
        gs.last().db().history().len() == gs[0].db().history().len() + ops.len(),
        gs.last().db().history().subrange(0, gs[0].db().history().len() as int) == gs[0].db().history(),
        balanced(
            gs.last().db().history().subrange(
                gs[0].db().history().len() as int,
                gs.last().db().history().len() as int,
            ),
        ),
{
    let n = ops.len() as int;
    lemma_run_prefix(gs, ops, n);
    assert(ops.subrange(0, n) =~= ops);
    let h0 = gs[0].db().history().len() as int;
    lemma_balanced_frames_balance_store(ops, gs[n].db().history().subrange(h0, h0 + n));
}

} // verus!
