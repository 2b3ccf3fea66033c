//! The registry of passkeys: one primary credential and the additional
//! ones that give access from other devices and recovery.

use crate::codec::{
    bytes_equal, field_bytes, i64_le_bytes, lemma_bytes_round_trip, lemma_field_round_trip,
    lemma_i64_bytes_of_value, lemma_i64_round_trip, lemma_take_bytes_is_bytes,
    lemma_take_field_is_field, lemma_u32_bytes_of_value, lemma_u32_round_trip, put_bytes, put_field, put_i64, put_u32,
    read_array, read_field, read_i64, read_u32, take_bytes, take_field, take_i64, take_u32,
    u32_le_bytes, CodecError,
};
use crate::text::owned_text;
use vstd::prelude::*;
use vstd::utf8::{decode_utf8, encode_utf8, valid_utf8};

verus! {

/// Why the registry refused a change.
#[derive(Debug, Clone, Copy, PartialEq, Eq, Structural)]
pub enum RegistryError {
    /// The registry holds as many passkeys as it may.
    MaxCredentialsReached,
    /// An additional passkey has the credential id already.
    DuplicateCredential,
    /// The primary passkey cannot be removed.
    CannotRemovePrimary,
    /// No additional passkey has the credential id.
    NotFound,
}

impl RegistryError {
    /// The text of [`RegistryError::message`].
    pub open spec fn message_text(self) -> Seq<char> {
        match self {
            RegistryError::MaxCredentialsReached => "Maximum number of passkeys reached"@,
            RegistryError::DuplicateCredential => "Credential ID already exists"@,
            RegistryError::CannotRemovePrimary => "Cannot remove primary passkey"@,
            RegistryError::NotFound => "Passkey not found"@,
        }
    }

    /// A short description of the error for people.
    pub fn message(self) -> (text: &'static str)
        ensures
            text@ == self.message_text(),
    {
        match self {
            RegistryError::MaxCredentialsReached => "Maximum number of passkeys reached",
            RegistryError::DuplicateCredential => "Credential ID already exists",
            RegistryError::CannotRemovePrimary => "Cannot remove primary passkey",
            RegistryError::NotFound => "Passkey not found",
        }
    }
}

/// A registered passkey as a mathematical value.
pub struct PasskeyEntryView {
    pub public_key: Seq<u8>,
    pub credential_id: Seq<u8>,
    pub name: Seq<u8>,
    pub enabled: bool,
    pub added_at: i64,
}

/// One registered passkey.
#[derive(Debug, Clone)]
pub struct PasskeyEntry {
    /// The raw coordinates of the public key.
    pub public_key: [u8; 64],
    /// The credential id of the authenticator.
    pub credential_id: Vec<u8>,
    /// The name that the user gave the passkey, as UTF-8.
    pub name: Vec<u8>,
    /// Whether the passkey may be used.
    pub enabled: bool,
    /// When the passkey was registered.
    pub added_at: i64,
}

impl View for PasskeyEntry {
    type V = PasskeyEntryView;

    open spec fn view(&self) -> PasskeyEntryView {
        PasskeyEntryView {
            public_key: self.public_key@,
            credential_id: self.credential_id@,
            name: self.name@,
            enabled: self.enabled,
            added_at: self.added_at,
        }
    }
}

impl PasskeyEntry {
    /// A passkey registered at `added_at`, enabled, named `name`.
    pub fn new(public_key: [u8; 64], credential_id: Vec<u8>, name: String, added_at: i64) -> (entry:
        PasskeyEntry)
        ensures
            entry@ == (PasskeyEntryView {
                public_key: public_key@,
                credential_id: credential_id@,
                name: encode_utf8(name@),
                enabled: true,
                added_at,
            }),
    {
        let mut name_bytes: Vec<u8> = Vec::new();
        put_bytes(&mut name_bytes, name.as_str().as_bytes());
        assert(name_bytes@ =~= encode_utf8(name@));
        PasskeyEntry { public_key, credential_id, name: name_bytes, enabled: true, added_at }
    }

    /// The name as text; an error where the name bytes are no UTF-8.
    pub fn name_str(&self) -> (name: Result<String, std::string::FromUtf8Error>)
        ensures
            name is Ok == valid_utf8(self.name@),
            name matches Ok(text) ==> text@ == decode_utf8(self.name@),
    {
        let bytes = self.name.clone();
        assert(bytes@ =~= self.name@);
        owned_text(bytes)
    }
}

/// The views of `entries`, in order.
pub open spec fn entry_views(entries: Seq<PasskeyEntry>) -> Seq<PasskeyEntryView> {
    entries.map_values(|entry: PasskeyEntry| entry@)
}

/// The index of the first of `entries` with the credential id `id`; the
/// number of entries where there is none.
pub open spec fn first_index(entries: Seq<PasskeyEntryView>, id: Seq<u8>) -> int
    decreases entries.len(),
{
    if entries.len() == 0 {
        0
    } else if entries[0].credential_id == id {
        0
    } else {
        1 + first_index(entries.drop_first(), id)
    }
}

/// Whether the credential ids of `entries` are pairwise distinct.
pub open spec fn distinct_ids(entries: Seq<PasskeyEntryView>) -> bool {
    forall|i: int, j: int|
        0 <= i < j < entries.len() ==> (#[trigger] entries[i]).credential_id != (
        #[trigger] entries[j]).credential_id
}

/// A registry as a mathematical value.
pub struct MultiPasskeyView {
    pub primary: PasskeyEntryView,
    pub additional: Seq<PasskeyEntryView>,
    pub recovery_threshold: u8,
    pub max_passkeys: u8,
}

impl MultiPasskeyView {
    /// Whether no two passkeys of the registry, the primary one included,
    /// share a credential id.
    pub open spec fn unique_ids(self) -> bool {
        &&& distinct_ids(self.additional)
        &&& forall|i: int|
            0 <= i < self.additional.len() ==> (#[trigger] self.additional[i]).credential_id
                != self.primary.credential_id
    }

    /// The invariant of a registry, which every operation keeps: the
    /// threshold lies between one and the capacity, the primary and the
    /// additional passkeys together do not exceed the capacity, and no two
    /// passkeys, the primary one included, share a credential id.
    pub open spec fn wf(self) -> bool {
        &&& 1 <= self.recovery_threshold <= self.max_passkeys
        &&& self.additional.len() + 1 <= self.max_passkeys
        &&& self.unique_ids()
    }

    /// Whether an additional passkey has the credential id `id`.
    pub open spec fn has_additional(self, id: Seq<u8>) -> bool {
        first_index(self.additional, id) < self.additional.len()
    }

    /// All passkeys: the primary first, the additional ones in the order
    /// in which they were added.
    pub open spec fn all(self) -> Seq<PasskeyEntryView> {
        seq![self.primary] + self.additional
    }

    /// The enabled passkeys, in the order of [`MultiPasskeyView::all`].
    pub open spec fn enabled(self) -> Seq<PasskeyEntryView> {
        self.all().filter(|entry: PasskeyEntryView| entry.enabled)
    }

    /// Whether enough passkeys are enabled for a recovery.
    pub open spec fn can_recover(self) -> bool {
        self.enabled().len() >= self.recovery_threshold
    }

    /// The passkey with the credential id `id`: the primary one if it has
    /// that id, else the first additional one that has it.
    pub open spec fn found(self, id: Seq<u8>) -> Option<PasskeyEntryView> {
        if self.primary.credential_id == id {
            Some(self.primary)
        } else if self.has_additional(id) {
            Some(self.additional[first_index(self.additional, id)])
        } else {
            None
        }
    }

    /// Whether a passkey with the credential id `id` may be added: not to
    /// a full registry, and not where the primary passkey or an additional
    /// one has the id already.
    pub open spec fn addition(self, id: Seq<u8>) -> Result<(), RegistryError> {
        if self.additional.len() + 1 >= self.max_passkeys {
            Err(RegistryError::MaxCredentialsReached)
        } else if self.primary.credential_id == id || self.has_additional(id) {
            Err(RegistryError::DuplicateCredential)
        } else {
            Ok(())
        }
    }

    /// Whether the passkey with the credential id `id` may be removed.
    pub open spec fn removal(self, id: Seq<u8>) -> Result<(), RegistryError> {
        if self.primary.credential_id == id {
            Err(RegistryError::CannotRemovePrimary)
        } else if !self.has_additional(id) {
            Err(RegistryError::NotFound)
        } else {
            Ok(())
        }
    }
}

/// Where the first `checked` entries do not have the id, the first index
/// of the id lies behind them, and it is `checked` if the entry there has
/// the id or the entries end there.
pub proof fn lemma_first_index(entries: Seq<PasskeyEntryView>, id: Seq<u8>, checked: int)
    requires
        0 <= checked <= entries.len(),
        forall|j: int| 0 <= j < checked ==> (#[trigger] entries[j]).credential_id != id,
    ensures
        first_index(entries, id) >= checked,
        first_index(entries, id) <= entries.len(),
        (checked == entries.len() || entries[checked].credential_id == id) ==> first_index(
            entries,
            id,
        ) == checked,
        first_index(entries, id) < entries.len() ==> entries[first_index(
            entries,
            id,
        )].credential_id == id,
    decreases entries.len(),
{
    if entries.len() > 0 && entries[0].credential_id != id {
        let tail = entries.drop_first();
        assert forall|j: int| 0 <= j < checked - 1 implies (#[trigger] tail[j]).credential_id
            != id by {
            assert(tail[j] == entries[j + 1]);
        }
        if checked > 0 {
            lemma_first_index(tail, id, checked - 1);
        } else {
            lemma_first_index(tail, id, 0);
        }
        let at = first_index(tail, id);
        if at < tail.len() {
            assert(tail[at] == entries[at + 1]);
        }
        if checked > 0 && checked < entries.len() {
            assert(tail[checked - 1] == entries[checked]);
        }
    }
}

/// A registry of passkeys.
#[derive(Debug, Clone)]
pub struct MultiPasskey {
    /// The primary passkey. It is never removed.
    pub primary: PasskeyEntry,
    /// The additional passkeys, in the order in which they were added.
    pub additional: Vec<PasskeyEntry>,
    /// The number of enabled passkeys that a recovery needs.
    pub recovery_threshold: u8,
    /// The number of passkeys the registry may hold, the primary one
    /// included.
    pub max_passkeys: u8,
}

impl View for MultiPasskey {
    type V = MultiPasskeyView;

    open spec fn view(&self) -> MultiPasskeyView {
        MultiPasskeyView {
            primary: self.primary@,
            additional: entry_views(self.additional@),
            recovery_threshold: self.recovery_threshold,
            max_passkeys: self.max_passkeys,
        }
    }
}

impl MultiPasskey {
    /// A registry with its primary passkey alone. The capacity is at least
    /// one, and the threshold is brought between one and the capacity.
    pub fn new(
        primary_public_key: [u8; 64],
        primary_credential_id: Vec<u8>,
        primary_name: String,
        created_at: i64,
        recovery_threshold: u8,
        max_passkeys: u8,
    ) -> (registry: MultiPasskey)
        ensures
            registry@.wf(),
            registry@.primary == (PasskeyEntryView {
                public_key: primary_public_key@,
                credential_id: primary_credential_id@,
                name: encode_utf8(primary_name@),
                enabled: true,
                added_at: created_at,
            }),
            registry@.additional == Seq::<PasskeyEntryView>::empty(),
            registry@.max_passkeys == (if max_passkeys < 1 {
                1u8
            } else {
                max_passkeys
            }),
            registry@.recovery_threshold == (if recovery_threshold < 1 {
                1u8
            } else if recovery_threshold > registry@.max_passkeys {
                registry@.max_passkeys
            } else {
                recovery_threshold
            }),
    {
        let primary = PasskeyEntry::new(
            primary_public_key,
            primary_credential_id,
            primary_name,
            created_at,
        );
        let capacity: u8 = if max_passkeys < 1 {
            1
        } else {
            max_passkeys
        };
        let threshold: u8 = if recovery_threshold < 1 {
            1
        } else if recovery_threshold > capacity {
            capacity
        } else {
            recovery_threshold
        };
        let registry = MultiPasskey {
            primary,
            additional: Vec::new(),
            recovery_threshold: threshold,
            max_passkeys: capacity,
        };
        assert(registry@.additional =~= Seq::<PasskeyEntryView>::empty());
        registry
    }

    /// The index of the first additional passkey with the credential id
    /// `credential_id`, if there is one.
    fn position(&self, credential_id: &[u8]) -> (at: Option<usize>)
        ensures
            match at {
                Some(i) => self@.has_additional(credential_id@) && i == first_index(
                    self@.additional,
                    credential_id@,
                ) && i < self.additional@.len(),
                None => !self@.has_additional(credential_id@),
            },
    {
        let mut i: usize = 0;
        while i < self.additional.len()
            invariant
                i <= self.additional@.len(),
                self@.additional.len() == self.additional@.len(),
                forall|j: int|
                    0 <= j < i ==> (#[trigger] self@.additional[j]).credential_id
                        != credential_id@,
            decreases self.additional@.len() - i,
        {
            if bytes_equal(self.additional[i].credential_id.as_slice(), credential_id) {
                proof {
                    assert(self@.additional[i as int] == self.additional@[i as int]@);
                    lemma_first_index(self@.additional, credential_id@, i as int);
                }
                return Some(i);
            }
            proof {
                assert(self@.additional[i as int] == self.additional@[i as int]@);
            }
            i += 1;
        }
        proof {
            lemma_first_index(self@.additional, credential_id@, i as int);
        }
        None
    }

    /// Adds a passkey, enabled, behind the additional ones. The registry
    /// is unchanged where it is full or a passkey, the primary one or an
    /// additional one, has the credential id already.
    pub fn add_passkey(
        &mut self,
        public_key: [u8; 64],
        credential_id: Vec<u8>,
        name: String,
        added_at: i64,
    ) -> (outcome: Result<(), RegistryError>)
        ensures
            outcome == old(self)@.addition(credential_id@),
            outcome is Ok ==> final(self)@ == (MultiPasskeyView {
                additional: old(self)@.additional.push(
                    PasskeyEntryView {
                        public_key: public_key@,
                        credential_id: credential_id@,
                        name: encode_utf8(name@),
                        enabled: true,
                        added_at,
                    },
                ),
                ..old(self)@
            }),
            outcome is Err ==> *final(self) == *old(self),
            old(self)@.unique_ids() ==> final(self)@.unique_ids(),
            old(self)@.wf() ==> final(self)@.wf(),
    {
        if self.additional.len() >= 255 || self.additional.len() + 1 >= self.max_passkeys as usize {
            return Err(RegistryError::MaxCredentialsReached);
        }
        if bytes_equal(self.primary.credential_id.as_slice(), credential_id.as_slice()) {
            return Err(RegistryError::DuplicateCredential);
        }
        if self.position(credential_id.as_slice()).is_some() {
            return Err(RegistryError::DuplicateCredential);
        }
        let entry = PasskeyEntry::new(public_key, credential_id, name, added_at);
        self.additional.push(entry);
        proof {
            let before = old(self)@.additional;
            let after = self@.additional;
            assert(after =~= before.push(entry@));
            if distinct_ids(before) {
                lemma_first_index(before, credential_id@, 0);
                assert forall|i: int, j: int| 0 <= i < j < after.len() implies (
                #[trigger] after[i]).credential_id != (#[trigger] after[j]).credential_id by {
                    if j == before.len() {
                        if before[i].credential_id == credential_id@ {
                            lemma_first_index_bounded(before, credential_id@, i);
                        }
                    } else {
                        assert(after[i] == before[i] && after[j] == before[j]);
                    }
                }
            }
            if old(self)@.unique_ids() {
                assert forall|i: int| 0 <= i < after.len() implies (
                #[trigger] after[i]).credential_id != self@.primary.credential_id by {
                    if i < before.len() {
                        assert(after[i] == before[i]);
                    }
                }
            }
        }
        Ok(())
    }

    /// Removes the first additional passkey with the credential id
    /// `credential_id`, and that one alone. The registry is unchanged where
    /// the id is the primary passkey's or no additional passkey has it.
    pub fn remove_passkey(&mut self, credential_id: &[u8]) -> (outcome: Result<(), RegistryError>)
        ensures
            outcome == old(self)@.removal(credential_id@),
            outcome is Ok ==> final(self)@ == (MultiPasskeyView {
                additional: old(self)@.additional.remove(
                    first_index(old(self)@.additional, credential_id@),
                ),
                ..old(self)@
            }),
            outcome is Ok ==> final(self)@.additional.len() == old(self)@.additional.len() - 1,
            outcome is Err ==> *final(self) == *old(self),
            old(self)@.unique_ids() ==> final(self)@.unique_ids(),
            old(self)@.wf() ==> final(self)@.wf(),
    {
        if bytes_equal(self.primary.credential_id.as_slice(), credential_id) {
            return Err(RegistryError::CannotRemovePrimary);
        }
        match self.position(credential_id) {
            None => Err(RegistryError::NotFound),
            Some(at) => {
                let _ = self.additional.remove(at);
                proof {
                    let before = old(self)@.additional;
                    let after = self@.additional;
                    assert(after =~= before.remove(at as int));
                    if distinct_ids(before) {
                        assert forall|i: int, j: int| 0 <= i < j < after.len() implies (
                        #[trigger] after[i]).credential_id != (
                        #[trigger] after[j]).credential_id by {
                            let i0 = if i < at { i } else { i + 1 };
                            let j0 = if j < at { j } else { j + 1 };
                            assert(after[i] == before[i0] && after[j] == before[j0]);
                        }
                    }
                    if old(self)@.unique_ids() {
                        assert forall|i: int| 0 <= i < after.len() implies (
                        #[trigger] after[i]).credential_id != self@.primary.credential_id by {
                            let i0 = if i < at { i } else { i + 1 };
                            assert(after[i] == before[i0]);
                        }
                    }
                }
                Ok(())
            },
        }
    }

    /// The passkey with the credential id `credential_id`: the primary one
    /// if it has that id, else the first additional one that has it.
    pub fn find_passkey(&self, credential_id: &[u8]) -> (entry: Option<&PasskeyEntry>)
        ensures
            match self@.found(credential_id@) {
                Some(view) => entry matches Some(e) && e@ == view,
                None => entry is None,
            },
    {
        if bytes_equal(self.primary.credential_id.as_slice(), credential_id) {
            return Some(&self.primary);
        }
        match self.position(credential_id) {
            None => None,
            Some(at) => {
                assert(self@.additional[at as int] == self.additional@[at as int]@);
                Some(&self.additional[at])
            },
        }
    }

    /// The enabled passkeys: the primary one first, then the additional
    /// ones in their order.
    pub fn enabled_passkeys(&self) -> (enabled: Vec<&PasskeyEntry>)
        ensures
            enabled@.map_values(|entry: &PasskeyEntry| entry@) == self@.enabled(),
    {
        let ghost pred = |entry: PasskeyEntryView| entry.enabled;
        let ghost view_of = |entry: &PasskeyEntry| entry@;
        let mut enabled: Vec<&PasskeyEntry> = Vec::new();
        if self.primary.enabled {
            enabled.push(&self.primary);
        }
        assert(enabled@.map_values(view_of) =~= seq![self@.primary].filter(pred)) by {
            reveal(Seq::filter);
            let first = seq![self@.primary];
            assert(first.drop_last() =~= Seq::<PasskeyEntryView>::empty());
            assert(first.drop_last().filter(pred) =~= Seq::<PasskeyEntryView>::empty());
        }
        let mut i: usize = 0;
        while i < self.additional.len()
            invariant
                i <= self.additional@.len(),
                self@.additional.len() == self.additional@.len(),
                pred == |entry: PasskeyEntryView| entry.enabled,
                view_of == |entry: &PasskeyEntry| entry@,
                enabled@.map_values(view_of) == (seq![self@.primary] + self@.additional.take(
                    i as int,
                )).filter(pred),
            decreases self.additional@.len() - i,
        {
            let ghost before = seq![self@.primary] + self@.additional.take(i as int);
            let ghost grown = seq![self@.primary] + self@.additional.take(i + 1);
            let ghost listed = enabled@.map_values(view_of);
            let entry = &self.additional[i];
            if entry.enabled {
                enabled.push(entry);
            }
            proof {
                reveal(Seq::filter);
                assert(self@.additional[i as int] == self.additional@[i as int]@);
                assert(grown.drop_last() =~= before);
                assert(grown.last() == entry@);
                if entry.enabled {
                    assert(enabled@.map_values(view_of) =~= listed.push(entry@));
                } else {
                    assert(enabled@.map_values(view_of) =~= listed);
                }
            }
            i += 1;
        }
        assert(self@.additional.take(i as int) =~= self@.additional);
        enabled
    }

    /// Whether enough passkeys are enabled for a recovery: at least as
    /// many as the threshold asks for.
    pub fn can_recover(&self) -> (possible: bool)
        ensures
            possible == self@.can_recover(),
    {
        let enabled = self.enabled_passkeys();
        assert(enabled@.map_values(|entry: &PasskeyEntry| entry@).len() == enabled@.len());
        enabled.len() >= self.recovery_threshold as usize
    }
}

/// An entry at `at` with the id puts the first index of the id at `at` or
/// before.
pub proof fn lemma_first_index_bounded(entries: Seq<PasskeyEntryView>, id: Seq<u8>, at: int)
    requires
        0 <= at < entries.len(),
        entries[at].credential_id == id,
    ensures
        first_index(entries, id) <= at,
    decreases entries.len(),
{
    if entries[0].credential_id != id {
        let tail = entries.drop_first();
        assert(tail[at - 1] == entries[at]);
        lemma_first_index_bounded(tail, id, at - 1);
    }
}

/// The primary passkey cannot be removed, whatever else the registry
/// holds.
pub proof fn lemma_primary_stays(registry: MultiPasskeyView)
    ensures
        registry.removal(registry.primary.credential_id) == Err::<(), RegistryError>(
            RegistryError::CannotRemovePrimary,
        ),
{
}

/// A credential id that no passkey has cannot be removed.
pub proof fn lemma_unknown_id_is_not_found(registry: MultiPasskeyView, id: Seq<u8>)
    requires
        registry.primary.credential_id != id,
        forall|i: int|
            0 <= i < registry.additional.len() ==> (#[trigger] registry.additional[i]).credential_id
                != id,
    ensures
        registry.removal(id) == Err::<(), RegistryError>(RegistryError::NotFound),
{
    lemma_first_index(registry.additional, id, registry.additional.len() as int);
}

/// A passkey that was added is found under its credential id.
pub proof fn lemma_added_is_found(registry: MultiPasskeyView, entry: PasskeyEntryView)
    requires
        registry.addition(entry.credential_id) is Ok,
    ensures
        (MultiPasskeyView { additional: registry.additional.push(entry), ..registry }).found(
            entry.credential_id,
        ) == Some(entry),
{
    let id = entry.credential_id;
    let before = registry.additional;
    let after = before.push(entry);
    lemma_first_index(before, id, 0);
    assert forall|j: int| 0 <= j < before.len() implies (#[trigger] after[j]).credential_id
        != id by {
        assert(after[j] == before[j]);
        if before[j].credential_id == id {
            lemma_first_index_bounded(before, id, j);
        }
    }
    lemma_first_index(after, id, before.len() as int);
}

/// In a registry that holds its invariant, a passkey that was removed is
/// found no longer.
pub proof fn lemma_removed_is_gone(registry: MultiPasskeyView, id: Seq<u8>)
    requires
        registry.wf(),
        registry.removal(id) is Ok,
    ensures
        (MultiPasskeyView {
            additional: registry.additional.remove(first_index(registry.additional, id)),
            ..registry
        }).found(id) is None,
{
    let before = registry.additional;
    let at = first_index(before, id);
    let after = before.remove(at);
    lemma_first_index(before, id, 0);
    assert forall|j: int| 0 <= j < after.len() implies (#[trigger] after[j]).credential_id
        != id by {
        let j0 = if j < at { j } else { j + 1 };
        assert(after[j] == before[j0]);
        assert(before[j0].credential_id != before[at].credential_id);
    }
    lemma_first_index(after, id, after.len() as int);
}

/// Removing a passkey that was just added gives the registry back as it
/// was before the addition.
pub proof fn lemma_removal_undoes_addition(registry: MultiPasskeyView, entry: PasskeyEntryView)
    requires
        registry.addition(entry.credential_id) is Ok,
    ensures
        ({
            let grown = MultiPasskeyView {
                additional: registry.additional.push(entry),
                ..registry
            };
            &&& grown.removal(entry.credential_id) is Ok
            &&& (MultiPasskeyView {
                additional: grown.additional.remove(
                    first_index(grown.additional, entry.credential_id),
                ),
                ..grown
            }) == registry
        }),
{
    let id = entry.credential_id;
    let before = registry.additional;
    let after = before.push(entry);
    lemma_first_index(before, id, 0);
    assert forall|j: int| 0 <= j < before.len() implies (#[trigger] after[j]).credential_id
        != id by {
        assert(after[j] == before[j]);
        if before[j].credential_id == id {
            lemma_first_index_bounded(before, id, j);
        }
    }
    lemma_first_index(after, id, before.len() as int);
    assert(after.remove(before.len() as int) =~= before);
}

/// A registry takes new credential ids until it holds one passkey less
/// than its capacity beside the primary one, and none from then on.
pub proof fn lemma_registry_capacity(registry: MultiPasskeyView, id: Seq<u8>)
    requires
        registry.primary.credential_id != id,
        forall|i: int|
            0 <= i < registry.additional.len() ==> (#[trigger] registry.additional[i]).credential_id
                != id,
    ensures
        registry.additional.len() + 1 < registry.max_passkeys ==> registry.addition(id) == Ok::<
            (),
            RegistryError,
        >(()),
        registry.additional.len() + 1 >= registry.max_passkeys ==> registry.addition(id) == Err::<
            (),
            RegistryError,
        >(RegistryError::MaxCredentialsReached),
{
    lemma_first_index(registry.additional, id, registry.additional.len() as int);
}

impl PasskeyEntryView {
    /// Whether the variable-length fields are short enough for their
    /// length prefixes.
    pub open spec fn fits(self) -> bool {
        self.credential_id.len() <= u32::MAX && self.name.len() <= u32::MAX
    }

    /// The serialized passkey: public key, credential id and name behind
    /// their lengths, the flag as one byte, the time of registration.
    pub open spec fn encoding(self) -> Seq<u8> {
        self.public_key + field_bytes(self.credential_id) + field_bytes(self.name) + flag_bytes(
            self.enabled,
        ) + i64_le_bytes(self.added_at)
    }
}

/// Splits a serialized passkey off the front of `data`.
#[verifier::opaque]
pub open spec fn take_entry(data: Seq<u8>) -> Result<(PasskeyEntryView, Seq<u8>), CodecError> {
    match take_bytes(data, 64) {
        None => Err(CodecError::UnexpectedEnd),
        Some((public_key, rest1)) => match take_field(rest1) {
            None => Err(CodecError::UnexpectedEnd),
            Some((credential_id, rest2)) => match take_field(rest2) {
                None => Err(CodecError::UnexpectedEnd),
                Some((name, rest3)) => if rest3.len() < 1 {
                    Err(CodecError::UnexpectedEnd)
                } else if rest3[0] > 1 {
                    Err(CodecError::InvalidValue)
                } else {
                    match take_i64(rest3.skip(1)) {
                        None => Err(CodecError::UnexpectedEnd),
                        Some((added_at, rest4)) => Ok(
                            (
                                PasskeyEntryView {
                                    public_key,
                                    credential_id,
                                    name,
                                    enabled: rest3[0] == 1,
                                    added_at,
                                },
                                rest4,
                            ),
                        ),
                    }
                },
            },
        },
    }
}

/// The serialized passkeys of `entries`, one after the other.
pub open spec fn entries_encoding(entries: Seq<PasskeyEntryView>) -> Seq<u8>
    decreases entries.len(),
{
    if entries.len() == 0 {
        Seq::empty()
    } else {
        entries_encoding(entries.drop_last()) + entries.last().encoding()
    }
}

/// Splits `count` serialized passkeys off the front of `data`.
pub open spec fn take_entries(data: Seq<u8>, count: nat) -> Result<
    (Seq<PasskeyEntryView>, Seq<u8>),
    CodecError,
>
    decreases count,
{
    if count == 0 {
        Ok((Seq::empty(), data))
    } else {
        match take_entry(data) {
            Err(e) => Err(e),
            Ok((first, rest)) => match take_entries(rest, (count - 1) as nat) {
                Err(e) => Err(e),
                Ok((others, behind)) => Ok((seq![first] + others, behind)),
            },
        }
    }
}

/// Whether every passkey of `entries` fits its length prefixes.
pub open spec fn all_fit(entries: Seq<PasskeyEntryView>) -> bool {
    forall|i: int| 0 <= i < entries.len() ==> (#[trigger] entries[i]).fits()
}

impl MultiPasskeyView {
    /// Whether the registry can be serialized: every field and the list
    /// of additional passkeys are short enough for their length prefixes.
    pub open spec fn fits(self) -> bool {
        &&& self.primary.fits()
        &&& self.additional.len() <= u32::MAX
        &&& all_fit(self.additional)
    }

    /// The serialized registry: the primary passkey, the number of
    /// additional passkeys and those passkeys, the threshold, the capacity.
    pub open spec fn encoding(self) -> Seq<u8> {
        self.primary.encoding() + u32_le_bytes((self.additional.len() % 0x1_0000_0000) as u32)
            + entries_encoding(self.additional) + seq![self.recovery_threshold, self.max_passkeys]
    }
}

/// What reading `data` as a serialized registry gives.
pub open spec fn decode_registry(data: Seq<u8>) -> Result<MultiPasskeyView, CodecError> {
    match take_entry(data) {
        Err(e) => Err(e),
        Ok((primary, rest1)) => match take_u32(rest1) {
            None => Err(CodecError::UnexpectedEnd),
            Some((count, rest2)) => match take_entries(rest2, count as nat) {
                Err(e) => Err(e),
                Ok((additional, rest3)) => if rest3.len() < 2 {
                    Err(CodecError::UnexpectedEnd)
                } else if rest3.len() > 2 {
                    Err(CodecError::TrailingBytes)
                } else {
                    Ok(
                        MultiPasskeyView {
                            primary,
                            additional,
                            recovery_threshold: rest3[0],
                            max_passkeys: rest3[1],
                        },
                    )
                },
            },
        },
    }
}

impl PasskeyEntry {
    /// Appends the serialized passkey to `out`.
    fn write(&self, out: &mut Vec<u8>)
        ensures
            final(out)@ == old(out)@ + self@.encoding(),
    {
        put_bytes(out, self.public_key.as_slice());
        put_field(out, self.credential_id.as_slice());
        put_field(out, self.name.as_slice());
        out.push(
            if self.enabled {
                1u8
            } else {
                0u8
            },
        );
        put_i64(out, self.added_at);
        assert(out@ =~= old(out)@ + self@.encoding());
    }

    /// Reads a serialized passkey from the front of `data`.
    fn read(data: &[u8]) -> (read: Result<(PasskeyEntry, &[u8]), CodecError>)
        ensures
            match take_entry(data@) {
                Ok((view, rest)) => read matches Ok((entry, r)) && entry@ == view && r@ == rest,
                Err(e) => read matches Err(f) && f == e,
            },
    {
        proof {
            reveal(take_entry);
        }
        let (public_key, rest) = match read_array::<64>(data) {
            Some(read) => read,
            None => return Err(CodecError::UnexpectedEnd),
        };
        let (credential_id, rest) = match read_field(rest) {
            Some(read) => read,
            None => return Err(CodecError::UnexpectedEnd),
        };
        let (name, rest) = match read_field(rest) {
            Some(read) => read,
            None => return Err(CodecError::UnexpectedEnd),
        };
        if rest.len() < 1 {
            return Err(CodecError::UnexpectedEnd);
        }
        let flag = rest[0];
        if flag > 1 {
            return Err(CodecError::InvalidValue);
        }
        let behind = vstd::slice::slice_subrange(rest, 1, rest.len());
        assert(behind@ =~= rest@.skip(1));
        let (added_at, rest) = match read_i64(behind) {
            Some(read) => read,
            None => return Err(CodecError::UnexpectedEnd),
        };
        Ok((PasskeyEntry { public_key, credential_id, name, enabled: flag == 1, added_at }, rest))
    }

    /// Whether the passkey fits its length prefixes.
    fn fits(&self) -> (fits: bool)
        ensures
            fits == self@.fits(),
    {
        self.credential_id.len() <= u32::MAX as usize && self.name.len() <= u32::MAX as usize
    }
}

impl MultiPasskey {
    /// Serializes the registry. Fails only where a field or the list of
    /// additional passkeys is longer than a length prefix can say.
    pub fn to_bytes(&self) -> (bytes: Result<Vec<u8>, CodecError>)
        ensures
            self@.fits() ==> (bytes matches Ok(b) && b@ == self@.encoding()),
            !self@.fits() ==> bytes == Err::<Vec<u8>, CodecError>(CodecError::TooLong),
    {
        if !self.primary.fits() || self.additional.len() > u32::MAX as usize {
            return Err(CodecError::TooLong);
        }
        let mut bytes: Vec<u8> = Vec::new();
        self.primary.write(&mut bytes);
        put_u32(&mut bytes, self.additional.len() as u32);
        let ghost head = bytes@;
        assert(bytes@ =~= head + entries_encoding(self@.additional.take(0)));
        let mut i: usize = 0;
        while i < self.additional.len()
            invariant
                i <= self.additional@.len(),
                self@.additional.len() == self.additional@.len(),
                all_fit(self@.additional.take(i as int)),
                bytes@ == head + entries_encoding(self@.additional.take(i as int)),
            decreases self.additional@.len() - i,
        {
            let entry = &self.additional[i];
            proof {
                assert(self@.additional[i as int] == entry@);
            }
            if !entry.fits() {
                return Err(CodecError::TooLong);
            }
            entry.write(&mut bytes);
            proof {
                let grown = self@.additional.take(i + 1);
                assert(grown.drop_last() =~= self@.additional.take(i as int));
                assert(grown.last() == entry@);
                assert(bytes@ =~= head + entries_encoding(grown));
                assert forall|j: int| 0 <= j < grown.len() implies (#[trigger] grown[j]).fits() by {
                    if j < i {
                        assert(grown[j] == self@.additional.take(i as int)[j]);
                    }
                }
            }
            i += 1;
        }
        assert(self@.additional.take(i as int) =~= self@.additional);
        bytes.push(self.recovery_threshold);
        bytes.push(self.max_passkeys);
        assert(bytes@ =~= self@.encoding());
        Ok(bytes)
    }

    /// Reads a serialized registry: the whole of `data`, no byte more or
    /// less.
    pub fn from_bytes(data: &[u8]) -> (registry: Result<MultiPasskey, CodecError>)
        ensures
            match decode_registry(data@) {
                Ok(view) => registry matches Ok(r) && r@ == view,
                Err(e) => registry matches Err(f) && f == e,
            },
    {
        let (primary, rest) = match PasskeyEntry::read(data) {
            Ok(read) => read,
            Err(e) => return Err(e),
        };
        let ghost after_primary = rest@;
        let (count, rest) = match read_u32(rest) {
            Some(read) => read,
            None => return Err(CodecError::UnexpectedEnd),
        };
        let ghost start = rest@;
        let mut additional: Vec<PasskeyEntry> = Vec::new();
        let mut rest = rest;
        let mut i: u32 = 0;
        assert(entry_views(additional@) =~= Seq::<PasskeyEntryView>::empty());
        while i < count
            invariant
                i <= count,
                additional@.len() == i,
                take_entry(data@) == Ok::<(PasskeyEntryView, Seq<u8>), CodecError>(
                    (primary@, after_primary),
                ),
                take_u32(after_primary) == Some((count, start)),
                take_entries(start, count as nat) == (match take_entries(
                    rest@,
                    (count - i) as nat,
                ) {
                    Err(e) => Err(e),
                    Ok((others, behind)) => Ok((entry_views(additional@) + others, behind)),
                }),
            decreases count - i,
        {
            let ghost before = entry_views(additional@);
            let ghost remaining = rest@;
            let (entry, behind) = match PasskeyEntry::read(rest) {
                Ok(read) => read,
                Err(e) => {
                    assert(take_entries(remaining, (count - i) as nat) is Err);
                    return Err(e);
                },
            };
            additional.push(entry);
            rest = behind;
            proof {
                assert(entry_views(additional@) =~= before.push(entry@));
                match take_entries(behind@, (count - i - 1) as nat) {
                    Err(_) => {},
                    Ok((others, _)) => {
                        assert(before + (seq![entry@] + others) =~= before.push(entry@) + others);
                    },
                }
            }
            i += 1;
        }
        assert(entry_views(additional@) + Seq::<PasskeyEntryView>::empty() =~= entry_views(
            additional@,
        ));
        if rest.len() < 2 {
            return Err(CodecError::UnexpectedEnd);
        }
        if rest.len() > 2 {
            return Err(CodecError::TrailingBytes);
        }
        Ok(
            MultiPasskey {
                primary,
                additional,
                recovery_threshold: rest[0],
                max_passkeys: rest[1],
            },
        )
    }
}

/// Reading a serialized passkey gives the passkey back, whatever follows
/// it.
pub proof fn lemma_entry_round_trip(entry: PasskeyEntryView, rest: Seq<u8>)
    requires
        entry.public_key.len() == 64,
        entry.fits(),
    ensures
        take_entry(entry.encoding() + rest) == Ok::<(PasskeyEntryView, Seq<u8>), CodecError>(
            (entry, rest),
        ),
{
    reveal(take_entry);
    let flag = flag_bytes(entry.enabled);
    let d4 = i64_le_bytes(entry.added_at) + rest;
    let d3 = flag + d4;
    let d2 = field_bytes(entry.name) + d3;
    let d1 = field_bytes(entry.credential_id) + d2;
    let d0 = entry.public_key + d1;
    assert(entry.encoding() + rest =~= d0);
    lemma_bytes_round_trip(entry.public_key, d1);
    lemma_field_round_trip(entry.credential_id, d2);
    lemma_field_round_trip(entry.name, d3);
    assert(d3.skip(1) =~= d4);
    lemma_i64_round_trip(entry.added_at, rest);
}

/// A list of passkeys is serialized as its first passkey and then the
/// others.
pub proof fn lemma_entries_encoding_front(entries: Seq<PasskeyEntryView>)
    requires
        entries.len() > 0,
    ensures
        entries_encoding(entries) == entries.first().encoding() + entries_encoding(
            entries.drop_first(),
        ),
    decreases entries.len(),
{
    if entries.len() == 1 {
        reveal_with_fuel(entries_encoding, 2);
        assert(entries.drop_last() =~= Seq::<PasskeyEntryView>::empty());
        assert(entries.drop_first() =~= Seq::<PasskeyEntryView>::empty());
        assert(entries_encoding(entries) =~= entries.first().encoding());
        assert(entries.first().encoding() + entries_encoding(entries.drop_first())
            =~= entries.first().encoding());
    } else {
        let shorter = entries.drop_last();
        lemma_entries_encoding_front(shorter);
        assert(shorter.first() == entries.first());
        assert(shorter.drop_first() =~= entries.drop_first().drop_last());
        assert(entries.drop_first().last() == entries.last());
        assert(entries_encoding(entries) =~= entries.first().encoding() + entries_encoding(
            entries.drop_first(),
        ));
    }
}

/// Reading a serialized list of passkeys gives the list back, whatever
/// follows it.
pub proof fn lemma_entries_round_trip(entries: Seq<PasskeyEntryView>, rest: Seq<u8>)
    requires
        all_fit(entries),
        forall|i: int| 0 <= i < entries.len() ==> (#[trigger] entries[i]).public_key.len() == 64,
    ensures
        take_entries(entries_encoding(entries) + rest, entries.len()) == Ok::<
            (Seq<PasskeyEntryView>, Seq<u8>),
            CodecError,
        >((entries, rest)),
    decreases entries.len(),
{
    if entries.len() == 0 {
        assert(entries_encoding(entries) + rest =~= rest);
        assert(entries =~= Seq::<PasskeyEntryView>::empty());
    } else {
        let first = entries.first();
        let others = entries.drop_first();
        lemma_entries_encoding_front(entries);
        assert(entries_encoding(entries) + rest =~= first.encoding() + (entries_encoding(others)
            + rest));
        assert(entries[0].fits());
        lemma_entry_round_trip(first, entries_encoding(others) + rest);
        assert forall|i: int| 0 <= i < others.len() implies (#[trigger] others[i]).fits()
            && others[i].public_key.len() == 64 by {
            assert(others[i] == entries[i + 1]);
        }
        lemma_entries_round_trip(others, rest);
        assert(seq![first] + others =~= entries);
    }
}

/// Reading a serialized registry gives the registry back.
pub proof fn lemma_registry_round_trip(registry: MultiPasskeyView)
    requires
        registry.fits(),
        registry.primary.public_key.len() == 64,
        forall|i: int|
            0 <= i < registry.additional.len() ==> (
            #[trigger] registry.additional[i]).public_key.len() == 64,
    ensures
        decode_registry(registry.encoding()) == Ok::<MultiPasskeyView, CodecError>(registry),
{
    let count = (registry.additional.len() % 0x1_0000_0000) as u32;
    let d3 = seq![registry.recovery_threshold, registry.max_passkeys];
    let d2 = entries_encoding(registry.additional) + d3;
    let d1 = u32_le_bytes(count) + d2;
    let d0 = registry.primary.encoding() + d1;
    assert(registry.encoding() =~= d0);
    lemma_entry_round_trip(registry.primary, d1);
    lemma_u32_round_trip(count, d2);
    lemma_entries_round_trip(registry.additional, d3);
}

/// The flag of a passkey as the one byte that is written for it.
pub open spec fn flag_bytes(enabled: bool) -> Seq<u8> {
    seq![
        if enabled {
            1u8
        } else {
            0u8
        },
    ]
}

/// A serialized passkey with `rest` behind it, part by part from the
/// front.
proof fn lemma_entry_encoding_parts(entry: PasskeyEntryView, rest: Seq<u8>)
    ensures
        entry.encoding() + rest == entry.public_key + (field_bytes(entry.credential_id) + (
        field_bytes(entry.name) + (flag_bytes(entry.enabled) + (i64_le_bytes(entry.added_at)
            + rest)))),
{
    assert(entry.encoding() + rest =~= entry.public_key + (field_bytes(entry.credential_id) + (
    field_bytes(entry.name) + (flag_bytes(entry.enabled) + (i64_le_bytes(entry.added_at)
        + rest)))));
}

/// A passkey that was split off the front of `data` stands there in its
/// serialized form, with what was left behind it.
pub proof fn lemma_take_entry_is_entry(data: Seq<u8>)
    requires
        take_entry(data) is Ok,
    ensures
        ({
            let (entry, rest) = take_entry(data).unwrap();
            &&& entry.public_key.len() == 64
            &&& entry.fits()
            &&& data == entry.encoding() + rest
        }),
{
    reveal(take_entry);
    let (entry, rest) = take_entry(data).unwrap();
    let (public_key, rest1) = take_bytes(data, 64).unwrap();
    let (credential_id, rest2) = take_field(rest1).unwrap();
    let (name, rest3) = take_field(rest2).unwrap();
    let tail4 = i64_le_bytes(entry.added_at) + rest;
    let tail3 = flag_bytes(entry.enabled) + tail4;
    let tail2 = field_bytes(name) + tail3;
    let tail1 = field_bytes(credential_id) + tail2;
    assert(rest3.skip(1) == tail4) by {
        lemma_i64_bytes_of_value(rest3.skip(1));
        assert(rest3.skip(1) =~= rest3.skip(1).take(8) + rest);
    }
    assert(rest3 == tail3) by {
        assert(rest3 =~= seq![rest3[0]] + rest3.skip(1));
    }
    assert(rest2 == tail2) by {
        lemma_take_field_is_field(rest2);
    }
    assert(rest1 == tail1 && credential_id.len() <= u32::MAX) by {
        lemma_take_field_is_field(rest1);
    }
    assert(name.len() <= u32::MAX) by {
        lemma_take_field_is_field(rest2);
    }
    assert(data == public_key + tail1 && public_key.len() == 64) by {
        lemma_take_bytes_is_bytes(data, 64);
    }
    lemma_entry_encoding_parts(entry, rest);
}

/// Passkeys that were split off the front of `data` stand there in their
/// serialized form, with what was left behind them.
pub proof fn lemma_take_entries_are_entries(data: Seq<u8>, count: nat)
    requires
        take_entries(data, count) is Ok,
    ensures
        ({
            let (entries, rest) = take_entries(data, count).unwrap();
            &&& entries.len() == count
            &&& all_fit(entries)
            &&& forall|i: int|
                0 <= i < entries.len() ==> (#[trigger] entries[i]).public_key.len() == 64
            &&& data == entries_encoding(entries) + rest
        }),
    decreases count,
{
    let (entries, rest) = take_entries(data, count).unwrap();
    if count == 0 {
        assert(data =~= entries_encoding(entries) + rest);
    } else {
        lemma_take_entry_is_entry(data);
        let (first, behind) = take_entry(data).unwrap();
        lemma_take_entries_are_entries(behind, (count - 1) as nat);
        let (others, _) = take_entries(behind, (count - 1) as nat).unwrap();
        assert(entries =~= seq![first] + others);
        assert(entries.drop_first() =~= others);
        lemma_entries_encoding_front(entries);
        assert(data =~= entries_encoding(entries) + rest);
        assert forall|i: int| 0 <= i < entries.len() implies (#[trigger] entries[i]).fits()
            && entries[i].public_key.len() == 64 by {
            if i > 0 {
                assert(entries[i] == others[i - 1]);
            }
        }
    }
}

/// A registry that was read from bytes is the registry that those bytes
/// serialize: nothing else reads as a registry.
pub proof fn lemma_read_registry_was_written(data: Seq<u8>)
    requires
        decode_registry(data) is Ok,
    ensures
        ({
            let registry = decode_registry(data).unwrap();
            &&& registry.fits()
            &&& data == registry.encoding()
        }),
{
    let registry = decode_registry(data).unwrap();
    lemma_take_entry_is_entry(data);
    let (_, rest1) = take_entry(data).unwrap();
    lemma_u32_bytes_of_value(rest1);
    let (count, rest2) = take_u32(rest1).unwrap();
    assert(rest1 =~= rest1.take(4) + rest2);
    lemma_take_entries_are_entries(rest2, count as nat);
    let (_, rest3) = take_entries(rest2, count as nat).unwrap();
    assert(rest3 =~= seq![registry.recovery_threshold, registry.max_passkeys]);
    assert(data =~= registry.encoding());
}

} // verus!
