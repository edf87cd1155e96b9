//! The worker that collects renames and hands them back to the plugin in
//! one batch.

use std::collections::BTreeMap;
use vstd::prelude::*;
use crate::manifest::{lemma_text_map_insert, text_map};
use crate::messages::{json_of_renames, json_rename_pair, json_renames, read_rename, renames_payload, text_or_empty};
use crate::parent_seek::opt_text;
use crate::text::{chars_eq, chars_of};

verus! {

/// The renames queued since the last batch.
pub struct RenameWorker {
    pending: BTreeMap<u64, String>,
}

impl RenameWorker {
    /// The queued renames: a name for each tab id.
    pub closed spec fn queued(&self) -> Map<u64, Seq<char>> {
        text_map(self.pending@)
    }

    /// Nothing queued.
    pub fn new() -> (r: Self)
        ensures
            r.queued() == Map::<u64, Seq<char>>::empty(),
    {
        let r = RenameWorker { pending: BTreeMap::new() };
        assert(r.queued() =~= Map::<u64, Seq<char>>::empty());
        r
    }

    /// A worker with these renames queued.
    pub fn from_pending(pending: BTreeMap<u64, String>) -> (r: Self)
        ensures
            r.queued() == text_map(pending@),
    {
        RenameWorker { pending }
    }

    /// The queued renames.
    pub fn pending(&self) -> (r: &BTreeMap<u64, String>)
        ensures
            text_map(r@) == self.queued(),
    {
        &self.pending
    }

    /// Queues a rename read from a message; one that could not be read is
    /// dropped. A later rename of the same tab replaces an earlier one.
    pub fn queue(&mut self, rename: Option<(u64, String)>)
        ensures
            final(self).queued() == match rename {
                Some(p) => old(self).queued().insert(p.0, p.1@),
                None => old(self).queued(),
            },
    {
        if let Some((tab_id, new_name)) = rename {
            proof {
                lemma_text_map_insert(self.pending@, tab_id, new_name);
            }
            self.pending.insert(tab_id, new_name);
        }
    }

    /// Takes every queued rename, as the JSON text of the map from tab ids
    /// to names, from which they are read back. Nothing stays queued.
    pub fn execute(&mut self) -> (r: String)
        ensures
            r@ == text_or_empty(json_of_renames(old(self).queued())),
            json_renames(r@) == Some(old(self).queued()),
            final(self).queued() == Map::<u64, Seq<char>>::empty(),
    {
        let payload = renames_payload(&self.pending);
        self.pending = BTreeMap::new();
        assert(self.queued() =~= Map::<u64, Seq<char>>::empty());
        payload
    }

    /// Handles a message from the plugin. `queue-rename` carries one rename
    /// as JSON and queues it; `execute-renames` answers with every queued
    /// rename (the payload to post back to the plugin under the same name)
    /// and empties the queue; any other message changes nothing.
    pub fn on_message(&mut self, message: &str, payload: &str) -> (r: Option<String>)
        ensures
            if message@ == "queue-rename"@ {
                &&& r is None
                &&& final(self).queued() == match json_rename_pair(payload@) {
                    Some(p) => old(self).queued().insert(p.0, p.1),
                    None => old(self).queued(),
                }
            } else if message@ == "execute-renames"@ {
                &&& opt_text(r) == Some(text_or_empty(json_of_renames(old(self).queued())))
                &&& r matches Some(t) && json_renames(t@) == Some(old(self).queued())
                &&& final(self).queued() == Map::<u64, Seq<char>>::empty()
            } else {
                &&& r is None
                &&& final(self).queued() == old(self).queued()
            },
    {
        let m = chars_of(message);
        if chars_eq(&m, &chars_of("queue-rename")) {
            let rename = read_rename(payload);
            self.queue(rename);
            None
        } else if chars_eq(&m, &chars_of("execute-renames")) {
            Some(self.execute())
        } else {
            None
        }
    }
}

impl Default for RenameWorker {
    fn default() -> (r: Self)
        ensures
            r.queued() == Map::<u64, Seq<char>>::empty(),
    {
        Self::new()
    }
}

} // verus!
