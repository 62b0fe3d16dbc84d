//! The dialog text bank: loads one language's text and order tables from
//! the text archive, caching the last loaded file index.

use vstd::prelude::*;

use crate::error::ErrorKind;
use crate::hqr::load_hqr;
use crate::hqr::spec_load;
use crate::util::zero_vec;

verus! {

/// Bytes of the dialog text buffer.
pub const BUFFER_TEXT_LEN: usize = 25000;

/// Bytes of the dialog order buffer.
pub const BUFFER_ORDER_LEN: usize = 1024;

/// Text files per language in the text archive.
pub const MAX_TEXT_LANG: usize = 14;

/// The dialog text bank. `init_dial` loads the order table and the text
/// table of one text file; a repeated request for the file already loaded
/// does nothing.
#[derive(Debug)]
pub struct Message {
    /// Root path of the asset directory, kept for the caller.
    pub root: String,
    /// The text file index the buffers currently hold, if any.
    pub last_file_init: Option<usize>,
    /// The language slot used to index the text archive.
    pub language: usize,
    /// Size of the order table loaded last.
    pub max_text: usize,
    /// Whether speech samples should be preloaded alongside the text.
    pub flag_speak: bool,
    /// The dialog text table.
    pub buffer_text: Vec<u8>,
    /// The dialog order table.
    pub buffer_order: Vec<u8>,
}

impl Message {
    pub open spec fn wf(&self) -> bool {
        &&& self.buffer_text@.len() == BUFFER_TEXT_LEN
        &&& self.buffer_order@.len() == BUFFER_ORDER_LEN
    }

    /// A fresh text bank for the asset directory at `root`: English, nothing
    /// loaded yet.
    pub fn new(root: String) -> (m: Message)
        ensures
            m.wf(),
            m.root@ == root@,
            m.last_file_init is None,
            m.language == 1,
            m.max_text == 0,
            !m.flag_speak,
    {
        Message {
            root,
            last_file_init: None,
            language: 1,  // English
            max_text: 0,
            flag_speak: false,
            buffer_text: zero_vec(BUFFER_TEXT_LEN),
            buffer_order: zero_vec(BUFFER_ORDER_LEN),
        }
    }

    /// Loads text file `file_index` of the current language from the text
    /// archive: first the order table (recording its size), then the text
    /// table at the following entry. If `file_index` is the file already
    /// loaded, nothing is read. The file index is recorded before the loads,
    /// so a failed load still marks the file as attempted.
    pub fn init_dial(&mut self, archive: &[u8], file_index: usize) -> (r: Result<(), ErrorKind>)
        requires
            old(self).wf(),
            old(self).language * 28 + file_index * 2 + 1 <= usize::MAX,
        ensures
            final(self).wf(),
            final(self).root@ == old(self).root@,
            final(self).language == old(self).language,
            final(self).flag_speak == old(self).flag_speak,
            final(self).last_file_init == Some(file_index),
            ({
                let idx1 = (old(self).language * 28 + file_index * 2) as int / 2;
                let idx2 = old(self).language * 28 + file_index + 1;
                if old(self).last_file_init == Some(file_index) {
                    &&& r == Ok::<(), ErrorKind>(())
                    &&& final(self).buffer_order@ == old(self).buffer_order@
                    &&& final(self).buffer_text@ == old(self).buffer_text@
                    &&& final(self).max_text == old(self).max_text
                } else {
                    match spec_load(archive@, idx1, BUFFER_ORDER_LEN as int) {
                        Err(e) => {
                            &&& r == Err::<(), ErrorKind>(e)
                            &&& final(self).buffer_order@ == old(self).buffer_order@
                            &&& final(self).buffer_text@ == old(self).buffer_text@
                            &&& final(self).max_text == old(self).max_text
                        },
                        Ok(order_bytes) => {
                            &&& final(self).buffer_order@ == order_bytes + old(
                                self,
                            ).buffer_order@.skip(order_bytes.len() as int)
                            &&& final(self).max_text == order_bytes.len()
                            &&& match spec_load(archive@, idx2 as int, BUFFER_TEXT_LEN as int) {
                                Err(e) => {
                                    &&& r == Err::<(), ErrorKind>(e)
                                    &&& final(self).buffer_text@ == old(self).buffer_text@
                                },
                                Ok(text_bytes) => {
                                    &&& r == Ok::<(), ErrorKind>(())
                                    &&& final(self).buffer_text@ == text_bytes + old(
                                        self,
                                    ).buffer_text@.skip(text_bytes.len() as int)
                                },
                            }
                        },
                    }
                }
            }),
    {
        let cached = match self.last_file_init {
            Some(i) => i == file_index,
            None => false,
        };
        self.last_file_init = Some(file_index);
        if cached {
            return Ok(());
        }
        let index = (self.language * 28 + file_index * 2) / 2;
        let max_text = match load_hqr(archive, &mut self.buffer_order, index) {
            Ok(n) => n,
            Err(e) => {
                return Err(e);
            },
        };
        self.max_text = max_text;
        let index2 = self.language * 28 + file_index + 1;
        match load_hqr(archive, &mut self.buffer_text, index2) {
            Ok(_) => Ok(()),
            Err(e) => Err(e),
        }
    }
}

} // verus!
