use vstd::prelude::*;
use dashmap::DashSet;
use crate::pitch::MAX_SCANCODE;

verus! {

#[verifier::external_type_specification]
#[verifier::external_body]
#[verifier::reject_recursive_types(K)]
#[verifier::reject_recursive_types(S)]
pub struct ExDashSet<K, S>(DashSet<K, S>);

/// The keys that a `DashSet<usize>` holds.
pub uninterp spec fn dash_keys(s: DashSet<usize>) -> Set<usize>;

/// Relies on `DashSet::new`: a new set holds no key.
#[verifier::external_body]
fn dash_new() -> (r: DashSet<usize>)
    ensures
        dash_keys(r) == Set::<usize>::empty(),
{
    DashSet::new()
}

/// Relies on `DashSet::insert`: adds the key; returns whether it was absent.
#[verifier::external_body]
fn dash_insert(s: &mut DashSet<usize>, k: usize) -> (r: bool)
    ensures
        dash_keys(*final(s)) == dash_keys(*old(s)).insert(k),
        r == !dash_keys(*old(s)).contains(k),
{
    s.insert(k)
}

/// Relies on `DashSet::remove`: takes the key out; returns whether it was present.
#[verifier::external_body]
fn dash_remove(s: &mut DashSet<usize>, k: usize) -> (r: bool)
    ensures
        dash_keys(*final(s)) == dash_keys(*old(s)).remove(k),
        r == dash_keys(*old(s)).contains(k),
{
    s.remove(&k).is_some()
}

/// Relies on `DashSet::contains`: whether the key is in the set.
#[verifier::external_body]
fn dash_contains(s: &DashSet<usize>, k: usize) -> (r: bool)
    ensures
        r == dash_keys(*s).contains(k),
{
    s.contains(&k)
}

/// Relies on `DashSet::len`: the number of keys in the set.
#[verifier::external_body]
fn dash_len(s: &DashSet<usize>) -> (r: usize)
    ensures
        r == dash_keys(*s).len(),
{
    s.len()
}

/// Relies on `DashSet::iter`: visits every key of the set once, in no set order.
#[verifier::external_body]
fn dash_keys_vec(s: &DashSet<usize>) -> (r: Vec<usize>)
    ensures
        r@.to_set() == dash_keys(*s),
        r@.no_duplicates(),
{
    s.iter().map(|e| *e.key()).collect()
}

/// The set of currently sounding voices: one key identifier per held key.
pub struct VoiceRegistry {
    keys: DashSet<usize>,
}

impl View for VoiceRegistry {
    type V = Set<usize>;

    closed spec fn view(&self) -> Set<usize> {
        dash_keys(self.keys)
    }
}

impl VoiceRegistry {
    /// Finitely many keys, each a valid key identifier.
    pub closed spec fn wf(&self) -> bool {
        &&& self@.finite()
        &&& forall|k: usize| #[trigger] self@.contains(k) ==> k < MAX_SCANCODE
    }

    /// A registry with no voice sounding.
    pub fn new() -> (r: VoiceRegistry)
        ensures
            r.wf(),
            r@ == Set::<usize>::empty(),
    {
        VoiceRegistry { keys: dash_new() }
    }

    /// Starts the voice of key `k`; a key already sounding stays as it is.
    pub fn activate(&mut self, k: usize)
        requires
            old(self).wf(),
            k < MAX_SCANCODE,
        ensures
            final(self).wf(),
            final(self)@ == old(self)@.insert(k),
            old(self)@.contains(k) ==> final(self)@ == old(self)@,
    {
        dash_insert(&mut self.keys, k);
        proof {
            if old(self)@.contains(k) {
                assert(self@ =~= old(self)@);
            }
        }
    }

    /// Stops the voice of key `k`; a key not sounding stays as it is.
    pub fn deactivate(&mut self, k: usize)
        requires
            old(self).wf(),
        ensures
            final(self).wf(),
            final(self)@ == old(self)@.remove(k),
            !old(self)@.contains(k) ==> final(self)@ == old(self)@,
    {
        dash_remove(&mut self.keys, k);
        proof {
            if !old(self)@.contains(k) {
                assert(self@ =~= old(self)@);
            }
        }
    }

    /// Whether key `k` is sounding.
    pub fn is_active(&self, k: usize) -> (r: bool)
        ensures
            r == self@.contains(k),
    {
        dash_contains(&self.keys, k)
    }

    /// The number of sounding voices.
    pub fn len(&self) -> (r: usize)
        requires
            self.wf(),
        ensures
            r == self@.len(),
    {
        dash_len(&self.keys)
    }

    /// The sounding keys, each once, in no particular order.
    pub fn snapshot(&self) -> (r: Vec<usize>)
        requires
            self.wf(),
        ensures
            r@.to_set() == self@,
            r@.no_duplicates(),
            r@.len() == self@.len(),
            forall|i: int| 0 <= i < r@.len() ==> #[trigger] r@[i] < MAX_SCANCODE,
    {
        let r = dash_keys_vec(&self.keys);
        proof {
            r@.unique_seq_to_set();
            assert forall|i: int| 0 <= i < r@.len() implies #[trigger] r@[i] < MAX_SCANCODE by {
                assert(r@.to_set().contains(r@[i]));
            }
        }
        r
    }
}

} // verus!
