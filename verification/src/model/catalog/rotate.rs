//! Rotation of the master key: entries under an old epoch are encrypted anew.

use crate::collections::{ascending, lemma_ascending_push, reversed};
use crate::model::catalog::store::StoredModel;
use crate::model::declaration::EncryptedModel;
use crate::secret::{EncryptedSecret, KeyEpoch};
use crate::text::{decimal, decimal_text, join4};
use vstd::prelude::*;

verus! {

/// What a pass of re-encryption did.
#[derive(Debug, Clone, Copy, PartialEq, Eq, Structural)]
pub struct ReencryptReport {
    pub migrated: usize,
    pub already_current: usize,
}

/// The number of entries under `epoch`.
pub open spec fn count_at(stored: Seq<StoredModel>, epoch: KeyEpoch) -> nat
    decreases stored.len(),
{
    if stored.len() == 0 {
        0
    } else {
        count_at(stored.drop_last(), epoch) + (if stored.last().epoch() == epoch {
            1nat
        } else {
            0nat
        })
    }
}

/// Whether two declarations differ in nothing but their encrypted API key.
pub open spec fn same_but_key(a: EncryptedModel, b: EncryptedModel) -> bool {
    &&& a->id == b->id
    &&& a->base_url == b->base_url
    &&& a->client_id == b->client_id
    &&& a->model == b->model
    &&& a->system_prompt == b->system_prompt
}

/// Whether `after` is `before` with every entry that is not under `target`
/// encrypted anew under it, the same in all but its encrypted API key, and
/// every other entry as it was.
pub open spec fn migrated(
    before: Seq<StoredModel>,
    after: Seq<StoredModel>,
    target: KeyEpoch,
) -> bool {
    &&& after.len() == before.len()
    &&& forall|i: int|
        0 <= i < before.len() ==> if before[i].epoch() == target {
            (#[trigger] after[i]) == before[i]
        } else {
            &&& after[i].epoch() == target
            &&& after[i].key() == before[i].key()
            &&& same_but_key(before[i].stored(), after[i].stored())
        }
}

/// Encrypts an entry anew: `opened` is its API key decrypted, `sealed` that key
/// encrypted again.
pub fn rewrite(entry: StoredModel, opened: String, sealed: EncryptedSecret) -> (r: StoredModel)
    ensures
        r.key() == entry.key(),
        r.stored() == entry.stored().decrypted_with(opened).encrypted_with(sealed),
        r.epoch() == sealed.key_epoch,
        same_but_key(entry.stored(), r.stored()),
{
    let model = entry.decrypt(opened);
    StoredModel::encrypt(&model, sealed)
}

/// A pass of re-encryption, entry by entry: [`Self::next`] finds the next entry
/// to encrypt anew, [`Self::reencrypt`] does so, and the caller writes the
/// result to the store before it goes on.
pub struct Reencryption {
    rest: Vec<StoredModel>,
    target: KeyEpoch,
    report: ReencryptReport,
    listed: Ghost<Seq<StoredModel>>,
    written: Ghost<Seq<StoredModel>>,
}

impl Reencryption {
    /// The entries as they were when the pass began.
    pub closed spec fn listed(&self) -> Seq<StoredModel> {
        self.listed@
    }

    /// What the store holds in place of the entries that the pass is past.
    pub closed spec fn written(&self) -> Seq<StoredModel> {
        self.written@
    }

    /// The epoch that everything is to be under.
    pub closed spec fn target(&self) -> KeyEpoch {
        self.target
    }

    /// Whether the entries that the pass is past were dealt with, and counted.
    pub closed spec fn valid(&self) -> bool {
        let n = self.written().len() as int;
        &&& n + self.rest@.len() == self.listed().len() <= usize::MAX
        &&& self.rest@ == self.listed().skip(n).reverse()
        &&& migrated(self.listed().take(n), self.written(), self.target)
        &&& self.report.already_current == count_at(self.listed().take(n), self.target)
        &&& self.report.migrated + self.report.already_current == n
    }

    /// Whether the pass has come to an entry that must be encrypted anew.
    pub open spec fn at_outdated(&self) -> bool {
        &&& self.written().len() < self.listed().len()
        &&& self.listed()[self.written().len() as int].epoch() != self.target()
    }

    /// Goes on to the next entry that must be encrypted anew, and says whether
    /// there is one. An entry under the current epoch is left alone, without
    /// decrypting it, so that a pass can be broken off and run again at any
    /// point.
    pub fn next(&mut self) -> (r: bool)
        requires
            old(self).valid(),
        ensures
            final(self).valid(),
            final(self).listed() == old(self).listed(),
            final(self).target() == old(self).target(),
            old(self).written().len() <= final(self).written().len() <= final(self).listed().len(),
            final(self).written() == old(self).written() + old(self).listed().subrange(
                old(self).written().len() as int,
                final(self).written().len() as int,
            ),
            forall|i: int|
                old(self).written().len() <= i < final(self).written().len() ==> (
                #[trigger] old(self).listed()[i]).epoch() == old(self).target(),
            r == final(self).at_outdated(),
            !r ==> final(self).written().len() == final(self).listed().len(),
    {
        let ghost start = self.written();
        let ghost listed = self.listed();
        proof {
            assert(start =~= start + listed.subrange(start.len() as int, start.len() as int));
        }
        while self.rest.len() > 0
            invariant
                self.valid(),
                listed == self.listed(),
                listed == old(self).listed(),
                start == old(self).written(),
                self.target() == old(self).target(),
                start.len() <= self.written().len() <= listed.len(),
                self.written() == start + listed.subrange(
                    start.len() as int,
                    self.written().len() as int,
                ),
                forall|i: int|
                    start.len() <= i < self.written().len() ==> (#[trigger] listed[i]).epoch()
                        == self.target(),
            decreases self.rest@.len(),
        {
            let ghost n = self.written().len() as int;
            let last: usize = self.rest.len() - 1;
            assert(self.rest@[last as int] == listed[n]);
            if self.rest[last].key_epoch() != self.target {
                return true;
            }
            let ghost before = self.written();
            let _ = self.rest.pop();
            self.written = Ghost(before.push(listed[n]));
            self.report =
            ReencryptReport {
                migrated: self.report.migrated,
                already_current: self.report.already_current + 1,
            };
            proof {
                assert(self.rest@ =~= listed.skip(n + 1).reverse());
                assert(listed.take(n + 1).drop_last() =~= listed.take(n));
                assert(listed.take(n + 1).last() == listed[n]);
                lemma_migrated_step(listed, before, listed[n], self.target, n);
                assert(self.written() =~= start + listed.subrange(start.len() as int, n + 1));
            }
        }
        false
    }

    /// The encrypted API key of the entry that the pass has come to, to decrypt
    /// it.
    pub fn api_key(&self) -> (r: &EncryptedSecret)
        requires
            self.valid(),
            self.at_outdated(),
        ensures
            *r == self.listed()[self.written().len() as int].stored()->api_key,
    {
        let last: usize = self.rest.len() - 1;
        assert(self.rest@[last as int] == self.listed()[self.written().len() as int]);
        self.rest[last].api_key()
    }

    /// Encrypts the entry anew that the pass has come to: `opened` is its API
    /// key decrypted, `sealed` that key encrypted under the current epoch. The
    /// result is to replace the entry in the store.
    pub fn reencrypt(&mut self, opened: String, sealed: EncryptedSecret) -> (r: StoredModel)
        requires
            old(self).valid(),
            old(self).at_outdated(),
            sealed.key_epoch == old(self).target(),
        ensures
            final(self).valid(),
            final(self).listed() == old(self).listed(),
            final(self).target() == old(self).target(),
            final(self).written() == old(self).written().push(r),
            ({
                let entry = old(self).listed()[old(self).written().len() as int];
                &&& r.key() == entry.key()
                &&& r.stored() == entry.stored().decrypted_with(opened).encrypted_with(sealed)
            }),
    {
        let ghost n = self.written().len() as int;
        let ghost listed = self.listed();
        let ghost before = self.written();
        assert(self.rest@[self.rest@.len() - 1] == listed[n]);
        match self.rest.pop() {
            Some(entry) => {
                let r = rewrite(entry, opened, sealed);
                self.written = Ghost(before.push(r));
                self.report =
                ReencryptReport {
                    migrated: self.report.migrated + 1,
                    already_current: self.report.already_current,
                };
                proof {
                    assert(self.rest@ =~= listed.skip(n + 1).reverse());
                    assert(listed.take(n + 1).drop_last() =~= listed.take(n));
                    assert(listed.take(n + 1).last() == listed[n]);
                    lemma_migrated_step(listed, before, r, self.target, n);
                }
                r
            },
            None => vstd::pervasive::unreached(),
        }
    }

    /// What the pass did so far.
    pub fn report(&self) -> (r: ReencryptReport)
        requires
            self.valid(),
        ensures
            ({
                let past = self.listed().take(self.written().len() as int);
                &&& migrated(past, self.written(), self.target())
                &&& r.already_current == count_at(past, self.target())
                &&& r.migrated + r.already_current == past.len()
            }),
    {
        self.report
    }
}

/// Begins a pass over the entries of a store.
pub fn reencrypt_model_store(stored: Vec<StoredModel>, target: KeyEpoch) -> (r: Reencryption)
    ensures
        r.valid(),
        r.listed() == stored@,
        r.written() == Seq::<StoredModel>::empty(),
        r.target() == target,
{
    let ghost all = stored@;
    proof {
        // The length of a list fits its type.
        assert(stored.len() <= usize::MAX);
    }
    let rest = reversed(stored);
    proof {
        assert(all.skip(0) =~= all);
        assert(all.take(0) =~= Seq::<StoredModel>::empty());
    }
    Reencryption {
        rest,
        target,
        report: ReencryptReport { migrated: 0, already_current: 0 },
        listed: Ghost(all),
        written: Ghost(Seq::empty()),
    }
}

proof fn lemma_migrated_step(
    listed: Seq<StoredModel>,
    written: Seq<StoredModel>,
    next: StoredModel,
    target: KeyEpoch,
    n: int,
)
    requires
        0 <= n < listed.len(),
        migrated(listed.take(n), written, target),
        migrated(seq![listed[n]], seq![next], target),
    ensures
        migrated(listed.take(n + 1), written.push(next), target),
{
    let before = listed.take(n + 1);
    let after = written.push(next);
    assert(seq![next][0] == next);
    assert forall|i: int| 0 <= i < before.len() implies if before[i].epoch() == target {
        (#[trigger] after[i]) == before[i]
    } else {
        &&& after[i].epoch() == target
        &&& after[i].key() == before[i].key()
        &&& same_but_key(before[i].stored(), after[i].stored())
    } by {
        if i < n {
            assert(before[i] == listed.take(n)[i]);
            assert(after[i] == written[i]);
        }
    }
}

/// Whether `epoch` can be retired: no entry is under it any more. Otherwise
/// the error says how many are.
pub fn assert_no_rows_at_epoch(stored: &Vec<StoredModel>, epoch: KeyEpoch) -> (r: Result<
    (),
    String,
>)
    ensures
        r is Ok <==> count_at(stored@, epoch) == 0,
        r matches Err(error) ==> error@ == decimal_text(count_at(stored@, epoch))
            + " entrée(s) du catalogue de modèles encore chiffrée(s) sous l'epoch "@ + decimal_text(
            epoch as nat,
        ) + " : lancer reencrypt_model_store avant de la retirer"@,
{
    let mut remaining: usize = 0;
    let mut i: usize = 0;
    while i < stored.len()
        invariant
            i <= stored@.len(),
            remaining == count_at(stored@.take(i as int), epoch),
            remaining <= i,
        decreases stored@.len() - i,
    {
        proof {
            assert(stored@.take(i + 1).drop_last() =~= stored@.take(i as int));
            assert(stored@.take(i + 1).last() == stored@[i as int]);
        }
        if stored[i].key_epoch() == epoch {
            remaining = remaining + 1;
        }
        i = i + 1;
    }
    assert(stored@.take(i as int) =~= stored@);
    if remaining == 0 {
        Ok(())
    } else {
        Err(
            join4(
                decimal(remaining as u64).as_str(),
                " entrée(s) du catalogue de modèles encore chiffrée(s) sous l'epoch ",
                decimal(epoch as u64).as_str(),
                " : lancer reencrypt_model_store avant de la retirer",
            ),
        )
    }
}

/// A pass that ran through leaves every entry under its epoch, at its place and
/// with its model: decrypted with the API key that it had, it is what it was.
/// Nothing is left to do for a second pass, and every other epoch can be
/// retired.
pub proof fn lemma_pass_is_complete(
    before: Seq<StoredModel>,
    after: Seq<StoredModel>,
    target: KeyEpoch,
    old_epoch: KeyEpoch,
)
    requires
        migrated(before, after, target),
        old_epoch != target,
    ensures
        forall|i: int|
            0 <= i < before.len() ==> (#[trigger] after[i]).epoch() == target && after[i].key()
                == before[i].key(),
        forall|i: int, api_key: String|
            0 <= i < before.len() ==> #[trigger] after[i].stored().decrypted_with(api_key)
                == before[i].stored().decrypted_with(api_key),
        count_at(after, target) == after.len(),
        count_at(after, old_epoch) == 0,
        migrated(after, after, target),
{
    assert forall|i: int| 0 <= i < after.len() implies (#[trigger] after[i]).epoch() == target by {}
    lemma_all_current(after, target, old_epoch);
    assert forall|i: int, api_key: String| 0 <= i < before.len() implies #[trigger] after[
        i
    ].stored().decrypted_with(api_key) == before[i].stored().decrypted_with(api_key) by {
        assert(same_but_key(before[i].stored(), after[i].stored()));
    }
}

/// A pass that is broken off can be run again: what is already under the
/// current epoch is left as it is, and once the second pass has run through,
/// all is as if the first one had.
pub proof fn lemma_broken_pass_resumes(
    before: Seq<StoredModel>,
    written: Seq<StoredModel>,
    after: Seq<StoredModel>,
    target: KeyEpoch,
)
    requires
        written.len() <= before.len(),
        migrated(before.take(written.len() as int), written, target),
        migrated(written + before.skip(written.len() as int), after, target),
    ensures
        after.take(written.len() as int) == written,
        migrated(before, after, target),
{
    let n = written.len() as int;
    let between = written + before.skip(n);
    assert forall|i: int| 0 <= i < before.len() implies {
        &&& i < n ==> #[trigger] after[i] == written[i]
        &&& if before[i].epoch() == target {
            after[i] == before[i]
        } else {
            &&& after[i].epoch() == target
            &&& after[i].key() == before[i].key()
            &&& same_but_key(before[i].stored(), after[i].stored())
        }
    } by {
        if i < n {
            assert(before.take(n)[i] == before[i]);
            assert(written[i].epoch() == target);
            assert(between[i] == written[i]);
        } else {
            assert(between[i] == before[i]);
        }
    }
    assert(after.take(n) =~= written);
}

proof fn lemma_all_current(stored: Seq<StoredModel>, target: KeyEpoch, old_epoch: KeyEpoch)
    requires
        forall|i: int| 0 <= i < stored.len() ==> (#[trigger] stored[i]).epoch() == target,
        old_epoch != target,
    ensures
        count_at(stored, target) == stored.len(),
        count_at(stored, old_epoch) == 0,
    decreases stored.len(),
{
    if stored.len() > 0 {
        let front = stored.drop_last();
        assert forall|i: int| 0 <= i < front.len() implies (#[trigger] front[i]).epoch()
            == target by {
            assert(front[i] == stored[i]);
        }
        lemma_all_current(front, target, old_epoch);
        assert(stored[stored.len() - 1].epoch() == target);
    }
}

/// What is counted at an epoch is as many as there are positions of entries whose
/// API key is encrypted under it.
pub proof fn lemma_counts_entries_of_the_epoch(
    stored: Seq<StoredModel>,
    epoch: KeyEpoch,
) -> (at: Seq<int>)
    ensures
        ascending(at, stored.len() as int),
        at.len() == count_at(stored, epoch),
        forall|i: int| #[trigger]
            at.contains(i) <==> 0 <= i < stored.len() && stored[i].stored()->api_key.key_epoch
                == epoch,
    decreases stored.len(),
{
    if stored.len() == 0 {
        Seq::empty()
    } else {
        let front = stored.drop_last();
        let n = front.len() as int;
        let before = lemma_counts_entries_of_the_epoch(front, epoch);
        lemma_ascending_push(before, n);
        assert forall|i: int| 0 <= i < n implies front[i] == stored[i] by {}
        if stored.last().epoch() == epoch {
            before.push(n)
        } else {
            before
        }
    }
}

/// A pass leaves an entry under the target epoch as it is, and of any other it
/// changes the encrypted API key alone.
pub proof fn lemma_pass_changes_keys_alone(
    before: Seq<StoredModel>,
    after: Seq<StoredModel>,
    target: KeyEpoch,
    i: int,
)
    requires
        migrated(before, after, target),
        0 <= i < before.len(),
    ensures
        after.len() == before.len(),
        before[i].stored()->api_key.key_epoch == target ==> after[i] == before[i],
        after[i].stored()->api_key.key_epoch == target,
        after[i].key() == before[i].key(),
        after[i].stored()->id == before[i].stored()->id,
        after[i].stored()->base_url == before[i].stored()->base_url,
        after[i].stored()->client_id == before[i].stored()->client_id,
        after[i].stored()->model == before[i].stored()->model,
        after[i].stored()->system_prompt == before[i].stored()->system_prompt,
{
    let next = after[i];
}

} // verus!
