//! The settings of a connection (RFC 7540, section 6.5.2).

use vstd::prelude::*;

verus! {

/// The settings that an endpoint can announce.
#[derive(Debug, Clone, Copy, PartialEq, Eq, Structural)]
pub enum SettingKey {
    HeaderTableSize,
    EnablePush,
    MaxConcurrentStreams,
    InitialWindowSize,
    MaxFrameSize,
    MaxHeaderListSize,
}

/// All settings, at the place of their identifier on the wire less one.
pub const ALL_SETTING_KEYS: [SettingKey; 6] = [
    SettingKey::HeaderTableSize,
    SettingKey::EnablePush,
    SettingKey::MaxConcurrentStreams,
    SettingKey::InitialWindowSize,
    SettingKey::MaxFrameSize,
    SettingKey::MaxHeaderListSize,
];

impl SettingKey {
    /// The identifier of the setting on the wire.
    pub open spec fn h2_id(self) -> int {
        match self {
            SettingKey::HeaderTableSize => 1,
            SettingKey::EnablePush => 2,
            SettingKey::MaxConcurrentStreams => 3,
            SettingKey::InitialWindowSize => 4,
            SettingKey::MaxFrameSize => 5,
            SettingKey::MaxHeaderListSize => 6,
        }
    }

    /// The value that the setting has until it is announced.
    pub open spec fn default_value(self) -> u32 {
        match self {
            SettingKey::HeaderTableSize => 4096,
            SettingKey::EnablePush => 1,
            SettingKey::MaxConcurrentStreams => 100,
            SettingKey::InitialWindowSize => 65535,
            SettingKey::MaxFrameSize => 16384,
            SettingKey::MaxHeaderListSize => 0xffff_ffff,
        }
    }

    /// The setting with the identifier `id`, which is one of 1 to 6.
    pub fn from_h2_id(id: usize) -> (key: SettingKey)
        requires
            1 <= id <= 6,
        ensures
            key.h2_id() == id,
    {
        ALL_SETTING_KEYS[id - 1]
    }

    pub fn to_h2_id(&self) -> (id: usize)
        ensures
            id == self.h2_id(),
    {
        match self {
            SettingKey::HeaderTableSize => 1,
            SettingKey::EnablePush => 2,
            SettingKey::MaxConcurrentStreams => 3,
            SettingKey::InitialWindowSize => 4,
            SettingKey::MaxFrameSize => 5,
            SettingKey::MaxHeaderListSize => 6,
        }
    }
}

/// The value of every setting.
#[derive(Debug)]
pub struct Settings {
    values: [u32; 7],
}

impl Settings {
    /// The value of the setting `key`.
    pub closed spec fn spec_get(&self, key: SettingKey) -> u32 {
        self.values[key.h2_id()]
    }

    /// Every setting at its default.
    pub fn new() -> (r: Settings)
        ensures
            forall|key: SettingKey| r.spec_get(key) == key.default_value(),
    {
        Settings {
            values: [
                0,  // no setting has the identifier 0
                4096,
                1,
                100,
                65535,
                16384,
                0xffff_ffff,
            ],
        }
    }

    pub fn get(&self, key: SettingKey) -> (r: u32)
        ensures
            r == self.spec_get(key),
    {
        match key {
            SettingKey::HeaderTableSize => self.values[1],
            SettingKey::EnablePush => self.values[2],
            SettingKey::MaxConcurrentStreams => self.values[3],
            SettingKey::InitialWindowSize => self.values[4],
            SettingKey::MaxFrameSize => self.values[5],
            SettingKey::MaxHeaderListSize => self.values[6],
        }
    }

    pub fn set(&mut self, key: SettingKey, value: u32)
        ensures
            final(self).spec_get(key) == value,
            forall|other: SettingKey| other != key ==> final(self).spec_get(other) == old(self).spec_get(other),
    {
        match key {
            SettingKey::HeaderTableSize => self.values[1] = value,
            SettingKey::EnablePush => self.values[2] = value,
            SettingKey::MaxConcurrentStreams => self.values[3] = value,
            SettingKey::InitialWindowSize => self.values[4] = value,
            SettingKey::MaxFrameSize => self.values[5] = value,
            SettingKey::MaxHeaderListSize => self.values[6] = value,
        }
    }

    /// Sets the settings of `values`, one after the other.
    pub fn apply(&mut self, values: &Vec<(SettingKey, u32)>)
        ensures
            forall|key: SettingKey| final(self).spec_get(key) == applied(old(self), values@, key),
    {
        let mut i: usize = 0;
        while i < values.len()
            invariant
                i <= values.len(),
                forall|key: SettingKey| self.spec_get(key) == applied(old(self), values@.take(i as int), key),
            decreases values.len() - i,
        {
            let (key, value) = values[i];
            proof {
                assert(values@.take(i + 1).drop_last() =~= values@.take(i as int));
            }
            self.set(key, value);
            i += 1;
        }
        proof {
            assert(values@.take(values.len() as int) =~= values@);
        }
    }
}

/// The value of the setting `key` after `values` have been set on `start`,
/// one after the other: the last of the values for the key, or else the
/// value at the start.
pub open spec fn applied(start: &Settings, values: Seq<(SettingKey, u32)>, key: SettingKey) -> u32
    decreases values.len(),
{
    if values.len() == 0 {
        start.spec_get(key)
    } else if values.last().0 == key {
        values.last().1
    } else {
        applied(start, values.drop_last(), key)
    }
}

/// The value of the setting `key` after `values` have been set, one after
/// the other, on settings that are all at their defaults.
pub open spec fn applied_to_defaults(values: Seq<(SettingKey, u32)>, key: SettingKey) -> u32
    decreases values.len(),
{
    if values.len() == 0 {
        key.default_value()
    } else if values.last().0 == key {
        values.last().1
    } else {
        applied_to_defaults(values.drop_last(), key)
    }
}

pub proof fn lemma_applied_to_defaults(start: &Settings, values: Seq<(SettingKey, u32)>, key: SettingKey)
    requires
        start.spec_get(key) == key.default_value(),
    ensures
        applied(start, values, key) == applied_to_defaults(values, key),
    decreases values.len(),
{
    if values.len() > 0 && values.last().0 != key {
        lemma_applied_to_defaults(start, values.drop_last(), key);
    }
}

} // verus!
