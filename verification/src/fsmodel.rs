//! A mathematical model of the directory namespace, for stating what a run
//! of the engine does to it. Names map to abstract file identities; a rename
//! moves one binding. The laws here say that applying pairs in order yields
//! the composed mapping, and that undoing them in reverse order restores the
//! directory exactly.

use vstd::prelude::*;
use crate::pair::SpecPair;

verus! {

/// The directory: each name bound to the identity of the file it holds.
pub type FsModel = Map<Seq<char>, nat>;

/// When the model lets `p` be renamed: the source exists, the destination
/// does not, and the two names differ. (A real rename may also overwrite an
/// existing destination; what that destroys no rollback can restore, so the
/// laws below are stated without it.)
pub open spec fn rename_applicable(fs: FsModel, p: SpecPair) -> bool {
    fs.dom().contains(p.from) && !fs.dom().contains(p.to) && p.from != p.to
}

/// The directory after renaming `p.from` to `p.to`: the binding moves.
pub open spec fn rename_applied(fs: FsModel, p: SpecPair) -> FsModel {
    fs.remove(p.from).insert(p.to, fs[p.from])
}

/// The directory after undoing an applied `p`: the binding moves back.
pub open spec fn undo_one(fs: FsModel, p: SpecPair) -> FsModel {
    fs.remove(p.to).insert(p.from, fs[p.to])
}

/// Every pair of `ps` is applicable at its turn, in order.
pub open spec fn all_applicable(fs: FsModel, ps: Seq<SpecPair>) -> bool
    decreases ps.len(),
{
    ps.len() == 0 || (rename_applicable(fs, ps[0]) && all_applicable(
        rename_applied(fs, ps[0]),
        ps.skip(1),
    ))
}

/// The directory after applying each pair of `ps` in order: the meaning of
/// a run in which every rename succeeds.
pub open spec fn apply_all(fs: FsModel, ps: Seq<SpecPair>) -> FsModel
    decreases ps.len(),
{
    if ps.len() == 0 {
        fs
    } else {
        apply_all(rename_applied(fs, ps[0]), ps.skip(1))
    }
}

/// The directory after undoing the pairs of `ps` in strict reverse order of
/// application: the last pair is undone first, `ps[0]` last.
pub open spec fn undo_all(fs: FsModel, ps: Seq<SpecPair>) -> FsModel
    decreases ps.len(),
{
    if ps.len() == 0 {
        fs
    } else {
        undo_one(undo_all(fs, ps.skip(1)), ps[0])
    }
}

/// Undoing one applicable rename restores the directory it was applied to.
pub proof fn lemma_undo_one_inverts(fs: FsModel, p: SpecPair)
    requires
        rename_applicable(fs, p),
    ensures
        undo_one(rename_applied(fs, p), p) == fs,
{
    assert(undo_one(rename_applied(fs, p), p) =~= fs);
}

/// Rollback law: when every pair was applicable at its turn, undoing the
/// applied pairs in strict reverse order restores the starting directory,
/// so each renamed file ends up under its original `from` name again.
pub proof fn lemma_rollback_restores(fs: FsModel, ps: Seq<SpecPair>)
    requires
        all_applicable(fs, ps),
    ensures
        undo_all(apply_all(fs, ps), ps) == fs,
    decreases ps.len(),
{
    if ps.len() > 0 {
        let fs1 = rename_applied(fs, ps[0]);
        lemma_rollback_restores(fs1, ps.skip(1));
        lemma_undo_one_inverts(fs, ps[0]);
    }
}

/// Applying a list and one more pair is applying the list, then the pair:
/// a successful run builds the composed mapping one rename at a time, in
/// input order.
pub proof fn lemma_apply_all_snoc(fs: FsModel, ps: Seq<SpecPair>, p: SpecPair)
    ensures
        apply_all(fs, ps.push(p)) == rename_applied(apply_all(fs, ps), p),
    decreases ps.len(),
{
    if ps.len() == 0 {
        assert(ps.push(p)[0] == p);
        assert(ps.push(p).skip(1) =~= Seq::<SpecPair>::empty());
        assert(apply_all(rename_applied(fs, p), ps.push(p).skip(1)) == rename_applied(fs, p));
        assert(apply_all(fs, ps) == fs);
    } else {
        assert(ps.push(p)[0] == ps[0]);
        assert(ps.push(p).skip(1) =~= ps.skip(1).push(p));
        lemma_apply_all_snoc(rename_applied(fs, ps[0]), ps.skip(1), p);
    }
}

} // verus!
