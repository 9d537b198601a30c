use vstd::prelude::*;
use crate::message::{message_view, Message, MessageView};

pub mod map_ref;

pub use map_ref::MapEntryRef;

verus! {

/// Maps key: message to value: message
#[derive(Debug, PartialEq)]
pub struct MapEntry {
    pub key: Message,
    pub val: Message,
}

impl DeepView for MapEntry {
    type V = (MessageView, MessageView);

    open spec fn deep_view(&self) -> (MessageView, MessageView) {
        (message_view(self.key), message_view(self.val))
    }
}

impl Clone for MapEntry {
    fn clone(&self) -> (e: Self)
        ensures
            e.deep_view() == self.deep_view(),
    {
        MapEntry { key: self.key.to_ref().to_owned(), val: self.val.to_ref().to_owned() }
    }
}

impl MapEntry {
    /// Instantiate a new key -> value entry
    pub fn new(key: Message, val: Message) -> (e: Self)
        ensures
            e.key == key,
            e.val == val,
    {
        Self { key, val }
    }

    /// Underlying key
    pub fn key(&self) -> (k: &Message)
        ensures
            *k == self.key,
    {
        &self.key
    }

    /// Underlying key with mutable access
    pub fn key_mut(&mut self) -> (k: &mut Message)
        ensures
            *k == old(self).key,
            final(self).key == *final(k),
            final(self).val == old(self).val,
    {
        &mut self.key
    }

    /// Underlying value
    pub fn val(&self) -> (v: &Message)
        ensures
            *v == self.val,
    {
        &self.val
    }

    /// Underlying value with mutable access
    pub fn val_mut(&mut self) -> (v: &mut Message)
        ensures
            *v == old(self).val,
            final(self).val == *final(v),
            final(self).key == old(self).key,
    {
        &mut self.val
    }

    /// Access the internal key and value as a tuple of references
    pub fn inner(&self) -> (r: (&Message, &Message))
        ensures
            *r.0 == self.key,
            *r.1 == self.val,
    {
        (&self.key, &self.val)
    }

    /// Create a new [`MapEntryRef`] with lifetime bound to `self`
    pub fn to_ref(&self) -> (e: MapEntryRef<'_>)
        ensures
            e.deep_view() == self.deep_view(),
    {
        MapEntryRef::new(self.key.to_ref(), self.val.to_ref())
    }

    /// Take the internal key and value as owned value
    pub fn into_inner(self) -> (r: (Message, Message))
        ensures
            r.0 == self.key,
            r.1 == self.val,
    {
        (self.key, self.val)
    }
}

} // verus!
