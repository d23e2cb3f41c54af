//! Memory store paths and content layout: where the daily and long-term
//! markdown notes live under a workspace and how their text is assembled.
//! Reading and writing the files, and knowing today's date, are the
//! embedding program's concern; it hands the values in.

use vstd::prelude::*;
use vstd::string::StringSliceAdditionalSpecFns;
use crate::text::{bs, concat_bytes, copy_bytes};

verus! {

/// The workspace-relative layout of the memory files.
pub struct MemoryStore {
    pub workspace: Vec<u8>,
    pub memory_dir: Vec<u8>,
    pub memory_file: Vec<u8>,
}

impl MemoryStore {
    /// The store rooted at a workspace path: notes live under `memory/`,
    /// long-term memory in `memory/MEMORY.md`.
    pub fn new(workspace: Vec<u8>) -> (r: MemoryStore)
        ensures
            r.workspace@ == workspace@,
            r.memory_dir@ == workspace@ + ("/memory").spec_bytes(),
            r.memory_file@ == workspace@ + ("/memory").spec_bytes() + (
            "/MEMORY.md").spec_bytes(),
    {
        let memory_dir = concat_bytes(&workspace, &bs("/memory"));
        let memory_file = concat_bytes(&memory_dir, &bs("/MEMORY.md"));
        MemoryStore { workspace, memory_dir, memory_file }
    }

    /// The path of the daily notes file for the given date.
    pub fn get_today_file(&self, date: &Vec<u8>) -> (r: Vec<u8>)
        ensures
            r@ == self.memory_dir@ + ("/").spec_bytes() + date@ + (".md").spec_bytes(),
    {
        let head = concat_bytes(&self.memory_dir, &bs("/"));
        let mid = concat_bytes(&head, date);
        concat_bytes(&mid, &bs(".md"))
    }

    /// The full text the daily file holds after appending `content`: a new
    /// file gets a date heading, a non-empty file gets a newline before the
    /// addition.
    pub fn append_today_content(
        &self,
        date: &Vec<u8>,
        existing: Option<&Vec<u8>>,
        content: &Vec<u8>,
    ) -> (r: Vec<u8>)
        ensures
            existing is None ==> r@ == ("# ").spec_bytes() + date@ + ("\n\n").spec_bytes()
                + content@,
            existing matches Some(e) ==> (e@.len() == 0 ==> r@ == content@) && (e@.len() > 0
                ==> r@ == e@ + ("\n").spec_bytes() + content@),
    {
        match existing {
            Some(e) => {
                if e.len() == 0 {
                    copy_bytes(content)
                } else {
                    let head = concat_bytes(e, &bs("\n"));
                    concat_bytes(&head, content)
                }
            },
            None => {
                let head = concat_bytes(&bs("# "), date);
                let mid = concat_bytes(&head, &bs("\n\n"));
                concat_bytes(&mid, content)
            },
        }
    }

    /// The combined memory context: the long-term section, then the daily
    /// section, joined by a blank line; empty sections are left out.
    pub fn get_memory_context(&self, long_term: &Vec<u8>, today: &Vec<u8>) -> (r: Vec<u8>)
        ensures
            long_term@.len() == 0 && today@.len() == 0 ==> r@.len() == 0,
            long_term@.len() > 0 && today@.len() == 0 ==> r@ == (
            "## Long-term Memory\n").spec_bytes() + long_term@,
            long_term@.len() == 0 && today@.len() > 0 ==> r@ == (
            "## Today's Notes\n").spec_bytes() + today@,
            long_term@.len() > 0 && today@.len() > 0 ==> r@ == (
            "## Long-term Memory\n").spec_bytes() + long_term@ + ("\n\n").spec_bytes() + (
            "## Today's Notes\n").spec_bytes() + today@,
    {
        if long_term.len() > 0 {
            let first = concat_bytes(&bs("## Long-term Memory\n"), long_term);
            if today.len() > 0 {
                let head = concat_bytes(&first, &bs("\n\n"));
                let mid = concat_bytes(&head, &bs("## Today's Notes\n"));
                concat_bytes(&mid, today)
            } else {
                first
            }
        } else {
            if today.len() > 0 {
                concat_bytes(&bs("## Today's Notes\n"), today)
            } else {
                Vec::new()
            }
        }
    }
}

} // verus!
