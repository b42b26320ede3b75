//! The download unit's decision logic. A download record lives at a
//! deterministic name derived from `(owner_key, file_name)`; a record that
//! is already satisfied is skipped without a transfer, so a unit is
//! performed at most once per key.

use vstd::prelude::*;

verus! {

/// The idempotency identity of one download unit.
pub struct AssetKey {
    pub owner_key: String,
    pub file_name: String,
}

impl View for AssetKey {
    type V = (Seq<char>, Seq<char>);

    open spec fn view(&self) -> (Seq<char>, Seq<char>) {
        (self.owner_key@, self.file_name@)
    }
}

pub open spec fn spec_key_pairs(s: Seq<AssetKey>) -> Set<(Seq<char>, Seq<char>)>
    decreases s.len(),
{
    if s.len() == 0 {
        Set::empty()
    } else {
        spec_key_pairs(s.drop_last()).insert(s.last()@)
    }
}

proof fn lemma_key_pairs_contains(s: Seq<AssetKey>, p: (Seq<char>, Seq<char>))
    ensures
        spec_key_pairs(s).contains(p) <==> exists|i: int| 0 <= i < s.len() && s[i]@ == p,
    decreases s.len(),
{
    if s.len() > 0 {
        lemma_key_pairs_contains(s.drop_last(), p);
        if s.last()@ == p {
            assert(s[s.len() - 1]@ == p);
        } else if exists|i: int| 0 <= i < s.len() && s[i]@ == p {
            let i = choose|i: int| 0 <= i < s.len() && s[i]@ == p;
            assert(s.drop_last()[i] == s[i]);
        }
    }
}

/// The set of download keys already satisfied — present on durable storage
/// before the run, or written by it.
pub struct DownloadLedger {
    done: Vec<AssetKey>,
}

impl View for DownloadLedger {
    type V = Set<(Seq<char>, Seq<char>)>;

    closed spec fn view(&self) -> Set<(Seq<char>, Seq<char>)> {
        spec_key_pairs(self.done@)
    }
}

/// The transfer decision: a unit transfers exactly when its record is
/// neither on disk already nor satisfied earlier in the run.
pub open spec fn spec_should_transfer(
    s: Set<(Seq<char>, Seq<char>)>,
    key: (Seq<char>, Seq<char>),
    on_disk: bool,
) -> bool {
    !on_disk && !s.contains(key)
}

impl DownloadLedger {
    pub fn new() -> (r: Self)
        ensures
            r@ == Set::<(Seq<char>, Seq<char>)>::empty(),
    {
        DownloadLedger { done: Vec::new() }
    }

    pub fn is_satisfied(&self, owner: &String, file: &String) -> (r: bool)
        ensures
            r == self@.contains((owner@, file@)),
    {
        proof {
            lemma_key_pairs_contains(self.done@, (owner@, file@));
        }
        let n = self.done.len();
        let mut i: usize = 0;
        while i < n
            invariant
                n == self.done@.len(),
                i <= n,
                forall|j: int| 0 <= j < i ==> (#[trigger] self.done@[j])@ != (owner@, file@),
            decreases n - i,
        {
            if self.done[i].owner_key == *owner && self.done[i].file_name == *file {
                proof {
                    lemma_key_pairs_contains(self.done@, (owner@, file@));
                    assert(self.done@[i as int]@ == (owner@, file@));
                }
                return true;
            }
            i = i + 1;
        }
        proof {
            lemma_key_pairs_contains(self.done@, (owner@, file@));
        }
        false
    }

    /// Decides one unit, before any network call: skip when the record is
    /// already satisfied, transfer otherwise.
    pub fn should_transfer(&self, owner: &String, file: &String, on_disk: bool) -> (r: bool)
        ensures
            r == spec_should_transfer(self@, (owner@, file@), on_disk),
    {
        if on_disk {
            false
        } else {
            !self.is_satisfied(owner, file)
        }
    }

    /// Records one satisfied unit: found on disk, skipped, or written after
    /// a successful transfer.
    pub fn record_satisfied(&mut self, owner: String, file: String)
        ensures
            final(self)@ == old(self)@.insert((owner@, file@)),
    {
        let ghost pre = self.done@;
        self.done.push(AssetKey { owner_key: owner, file_name: file });
        proof {
            assert(self.done@.drop_last() =~= pre);
        }
    }
}

/// Law: downloading the same `(owner_key, file_name)` twice performs the
/// transfer at most once. A first unit over a fresh key transfers; once the
/// key is satisfied, a second unit never transfers again, whatever the disk
/// check reports — the repeat is a no-op.
pub proof fn lemma_download_idempotent(
    s0: Set<(Seq<char>, Seq<char>)>,
    key: (Seq<char>, Seq<char>),
    on_disk_again: bool,
)
    ensures
        !s0.contains(key) ==> spec_should_transfer(s0, key, false),
        !spec_should_transfer(s0.insert(key), key, on_disk_again),
{
}

/// The deterministic record name of one download unit: the owning entity's
/// identifier and the declared file name joined by an underscore.
pub fn target_name(owner: &str, file: &str) -> (r: String)
    ensures
        r@ == owner@ + "_"@ + file@,
{
    let mut s = String::from_str(owner);
    s.append("_");
    s.append(file);
    s
}

} // verus!
