use vstd::prelude::*;
use crate::map::MapEntry;
use crate::message::MessageView;
use crate::message_ref::{message_ref_view, MessageRef};

verus! {

/// Maps key: message to value: message with lifetime bound to `MessageRef`
#[derive(Debug, PartialEq)]
pub struct MapEntryRef<'a> {
    pub key: MessageRef<'a>,
    pub val: MessageRef<'a>,
}

impl<'a> DeepView for MapEntryRef<'a> {
    type V = (MessageView, MessageView);

    open spec fn deep_view(&self) -> (MessageView, MessageView) {
        (message_ref_view(self.key), message_ref_view(self.val))
    }
}

impl<'a> Clone for MapEntryRef<'a> {
    fn clone(&self) -> (e: Self)
        ensures
            e.deep_view() == self.deep_view(),
    {
        MapEntryRef { key: self.key.duplicate(), val: self.val.duplicate() }
    }
}

impl<'a> MapEntryRef<'a> {
    /// Instantiate a new key -> value entry
    pub fn new(key: MessageRef<'a>, val: MessageRef<'a>) -> (e: Self)
        ensures
            e.key == key,
            e.val == val,
    {
        Self { key, val }
    }

    /// Underlying key
    pub fn key(&self) -> (k: &MessageRef<'a>)
        ensures
            *k == self.key,
    {
        &self.key
    }

    /// Underlying value
    pub fn val(&self) -> (v: &MessageRef<'a>)
        ensures
            *v == self.val,
    {
        &self.val
    }

    /// Take the internal key and value as owned value
    pub fn into_inner(self) -> (r: (MessageRef<'a>, MessageRef<'a>))
        ensures
            r.0 == self.key,
            r.1 == self.val,
    {
        (self.key, self.val)
    }

    /// Access the internal key and value as a tuple of references
    pub fn inner(&self) -> (r: (&MessageRef<'a>, &MessageRef<'a>))
        ensures
            *r.0 == self.key,
            *r.1 == self.val,
    {
        (&self.key, &self.val)
    }

    /// The same entry with strings and bytes of its own.
    pub fn into_owned(self) -> (e: MapEntry)
        ensures
            e.deep_view() == self.deep_view(),
    {
        MapEntry::new(self.key.to_owned(), self.val.to_owned())
    }
}

} // verus!
