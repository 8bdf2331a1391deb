//! Stations as the backends list them, and the persisted form of a remap
//! decision.
use vstd::prelude::*;

verus! {

/// One channel of a backend's catalog.
pub struct Station {
    pub id: String,
    pub name: String,
    pub city: String,
    pub call_sign: String,
    pub call_sign_remapped: Option<String>,
    pub channel: String,
    pub channel_remapped: Option<String>,
    pub logo_url: Option<String>,
    pub logo226_url: Option<String>,
    pub active: bool,
    pub remapped: Option<bool>,
}

/// A copy of an optional string.
pub fn copy_opt(o: &Option<String>) -> (r: Option<String>)
    ensures
        r == *o,
{
    match o {
        Some(s) => Some(s.clone()),
        None => None,
    }
}

impl Station {
    /// A field-for-field copy.
    pub fn copy(&self) -> (r: Station)
        ensures
            r == *self,
    {
        Station {
            id: self.id.clone(),
            name: self.name.clone(),
            city: self.city.clone(),
            call_sign: self.call_sign.clone(),
            call_sign_remapped: copy_opt(&self.call_sign_remapped),
            channel: self.channel.clone(),
            channel_remapped: copy_opt(&self.channel_remapped),
            logo_url: copy_opt(&self.logo_url),
            logo226_url: copy_opt(&self.logo226_url),
            active: self.active,
            remapped: self.remapped,
        }
    }
}

/// A remap decision for one station, keyed by `"channel.<id>"` where it is
/// stored.
pub struct ChannelRemapEntry {
    pub original_call_sign: String,
    pub remap_call_sign: String,
    pub original_channel: String,
    pub remap_channel: String,
    pub city: String,
    pub active: bool,
    pub remapped: bool,
}

} // verus!
