//! The upload run: the protocol that delivers an archive as ordered chunk
//! messages, then publishes the reassembly script chain, driving the
//! status edits of the head message along the way.
//!
//! The run is a state machine. Each step consumes the outcome of the
//! previous action (a delivered message's identifier, or the
//! acknowledgement of a head edit) and decides the next action. The caller
//! owns the transport: it performs each action and reports back.

use vstd::prelude::*;
use vstd::string::*;
use crate::chunks::chunk_bytes;
use crate::chunks::chunk_count;
use crate::chunks::chunk_count_of;
use crate::chunks::chunk_of;
use crate::chunks::lemma_chunk_count_covers;
use crate::chunks::lemma_chunk_index_fits;
use crate::script::BuildPhase;
use crate::script::LevelOutcome;
use crate::script::ReassemblyScriptBuilder;
use crate::script::chain_script_bytes;
use crate::script::completion_chars;
use crate::script::dl_entry_bytes;
use crate::script::script_chunk_name_chars;
use crate::text::dec_chars;
use crate::text::dec_string;

verus! {

/// The attachment name of one archive chunk.
pub open spec fn chunk_name_chars(i: nat) -> Seq<char> {
    "chunk_"@ + dec_chars(i) + ".zip"@
}

/// Render the attachment name of one archive chunk.
pub fn chunk_name(i: u64) -> (r: String)
    ensures
        r@ == chunk_name_chars(i as nat),
{
    let r = String::from_str("chunk_");
    let r = r.concat(dec_string(i).as_str());
    let r = r.concat(".zip");
    proof {
        assert(r@ =~= chunk_name_chars(i as nat));
    }
    r
}

pub open spec fn head_publishing_chars() -> Seq<char> {
    "Publishing artifact..."@
}

pub open spec fn head_uploading_chars() -> Seq<char> {
    "Uploading download script..."@
}

/// The warning, sent once before each level's chunk uploads, that the
/// following attachments serve the download script, not the operator.
pub open spec fn advisory_chars() -> Seq<char> {
    ":warning: Do not manually download files below! :warning:\n\nThose are for the download script."@
}

/// The head message's final text, naming how many chunks to concatenate.
pub open spec fn final_head_chars(chunks: nat) -> Seq<char> {
    "Backup completed successfully.\n\nTo assemble the original archive, download all "@
        + dec_chars(chunks) + " chunks and concatenate them into a single file"@
}

/// What the caller must do next, on the run's behalf.
pub enum RunAction {
    /// Send a message with this single file attachment; report the
    /// delivered message's identifier.
    SendFile { name: String, bytes: Vec<u8> },
    /// Send a message with this text content; report the delivered
    /// message's identifier.
    SendText { content: String },
    /// Edit the head message to this text; report the acknowledgement.
    EditHead { text: String },
    /// The run is complete.
    Finished,
}

/// What the previous action produced.
pub enum RunEvent {
    /// The sent message was delivered under this identifier.
    Delivered { id: u64 },
    /// The head edit went through.
    Edited,
}

/// Where the run stands: what the outstanding action was.
pub enum RunState {
    /// Awaiting the head edit that announces publication.
    HeadStart,
    /// Awaiting delivery of the archive chunk at `archive_next`.
    ArchiveChunk,
    /// Awaiting the head edit that announces the script upload.
    HeadUploading,
    /// Awaiting delivery of the advisory message.
    Advisory,
    /// Awaiting delivery of the current level's script chunk.
    ScriptChunk,
    /// Awaiting delivery of the closing message.
    Completion,
    /// Awaiting the final head edit.
    FinalEdit,
    /// Nothing remains.
    Finished,
}

/// One run of the delivery protocol over a fully built archive.
pub struct UploadRun {
    pub archive: Vec<u8>,
    pub builder: ReassemblyScriptBuilder,
    pub state: RunState,
    /// The archive chunk awaiting delivery, and past the last, how many
    /// archive chunks were delivered.
    pub archive_next: usize,
    /// How many chunks the archive splits into.
    pub archive_count: usize,
}

impl UploadRun {
    pub open spec fn cs(&self) -> nat {
        self.builder.chunk_size as nat
    }

    pub open spec fn wf(&self) -> bool {
        &&& self.archive_count == chunk_count(self.archive@.len(), self.cs())
        &&& match self.state {
            RunState::HeadStart => {
                &&& self.builder.wf()
                &&& self.builder.phase is Archive
                &&& self.archive_next == 0
                &&& self.builder.entries@.len() == 0
            },
            RunState::ArchiveChunk => {
                &&& self.builder.wf()
                &&& self.builder.phase is Archive
                &&& self.archive_next < self.archive_count
                &&& self.builder.entries@.len() == self.archive_next
            },
            RunState::HeadUploading => {
                &&& self.builder.wf()
                &&& self.builder.phase is Archive
                &&& self.archive_next == self.archive_count
                &&& self.builder.entries@.len() == self.archive_next
            },
            RunState::Advisory => {
                &&& self.builder.wf()
                &&& match self.builder.phase {
                    BuildPhase::Archive => self.archive_next == self.archive_count
                        && self.builder.entries@.len() == self.archive_next,
                    BuildPhase::Uploading => self.builder.next == 0,
                    BuildPhase::Done => false,
                }
            },
            RunState::ScriptChunk => {
                &&& self.builder.wf()
                &&& self.builder.phase is Uploading
                &&& self.builder.next < chunk_count(self.builder.script@.len(), self.cs())
            },
            RunState::Completion | RunState::FinalEdit | RunState::Finished => true,
        }
    }

    /// Which kind of event the outstanding action will produce.
    pub open spec fn expects(&self, event: RunEvent) -> bool {
        match self.state {
            RunState::HeadStart | RunState::HeadUploading | RunState::FinalEdit => event is Edited,
            RunState::ArchiveChunk | RunState::Advisory | RunState::ScriptChunk
                | RunState::Completion => event is Delivered,
            RunState::Finished => false,
        }
    }

    /// Start a run. The first action edits the head message; everything
    /// else follows from the events the caller reports. Refused only when
    /// the chunk size cannot hold a script level's fixed text with headroom
    /// for one download call per chunk.
    pub fn new(endpoint: String, archive: Vec<u8>, chunk_size: usize) -> (r: Option<
        (Self, RunAction),
    >)
        ensures
            r is Some ==> r->Some_0.0.wf(),
            r is Some ==> r->Some_0.0.state is HeadStart,
            r is Some ==> r->Some_0.0.archive == archive,
            r is Some ==> r->Some_0.0.builder.endpoint@ == endpoint@,
            r is Some ==> r->Some_0.0.builder.chunk_size == chunk_size,
            r is Some ==> (r->Some_0.1 matches RunAction::EditHead { text } && text@
                == head_publishing_chars()),
            r is None ==> (chunk_size as int) < ReassemblyScriptBuilder::spec_min_chunk_size(
                endpoint@,
            ),
    {
        match ReassemblyScriptBuilder::new(endpoint, chunk_size) {
            None => None,
            Some(builder) => {
                let archive_count = chunk_count_of(archive.len(), chunk_size);
                let run = UploadRun {
                    archive,
                    builder,
                    state: RunState::HeadStart,
                    archive_next: 0,
                    archive_count,
                };
                let action = RunAction::EditHead { text: String::from_str("Publishing artifact...") };
                Some((run, action))
            },
        }
    }

    /// The archive chunk at index `i`, as sent by this run.
    fn archive_chunk(&self, i: usize) -> (c: Vec<u8>)
        requires
            self.wf(),
            (i as nat) < chunk_count(self.archive@.len(), self.cs()),
            self.builder.chunk_size > 0,
        ensures
            c@ == chunk_bytes(self.archive@, i as nat, self.cs()),
    {
        let len = self.archive.len();
        proof {
            lemma_chunk_index_fits(len as nat, i as nat, self.cs());
        }
        chunk_of(self.archive.as_slice(), i, self.builder.chunk_size)
    }

    /// Consume the outcome of the outstanding action and decide the next
    /// one. Archive chunks go out in index order, each download call is
    /// recorded in delivery order, every script level's uploads are
    /// preceded by their own advisory message, and a level that fit in one
    /// chunk ends the chain with the closing message.
    pub fn step(&mut self, event: RunEvent) -> (action: RunAction)
        requires
            old(self).wf(),
            old(self).expects(event),
        ensures
            final(self).wf(),
            final(self).archive == old(self).archive,
            final(self).archive_count == old(self).archive_count,
            final(self).builder.endpoint == old(self).builder.endpoint,
            final(self).builder.chunk_size == old(self).builder.chunk_size,
            old(self).state is HeadStart ==> final(self).state is ArchiveChunk && (action matches
            RunAction::SendFile { name, bytes } && name@ == chunk_name_chars(0) && bytes@
                == chunk_bytes(old(self).archive@, 0, old(self).cs())),
            old(self).state is ArchiveChunk ==> (event matches RunEvent::Delivered { id } ==> {
                &&& final(self).builder.entries@ == old(self).builder.entries@.push(id)
                &&& final(self).builder.script@ == old(self).builder.script@ + dl_entry_bytes(id)
                &&& if old(self).archive_next + 1 < old(self).archive_count {
                    &&& final(self).state is ArchiveChunk
                    &&& final(self).archive_next == old(self).archive_next + 1
                    &&& (action matches RunAction::SendFile { name, bytes } && name@
                        == chunk_name_chars((old(self).archive_next + 1) as nat) && bytes@
                        == chunk_bytes(
                        old(self).archive@,
                        (old(self).archive_next + 1) as nat,
                        old(self).cs(),
                    ))
                } else {
                    &&& final(self).state is HeadUploading
                    &&& (action matches RunAction::EditHead { text } && text@
                        == head_uploading_chars())
                }
            }),
            old(self).state is HeadUploading ==> final(self).state is Advisory && (action matches
            RunAction::SendText { content } && content@ == advisory_chars()),
            old(self).state is Advisory ==> {
                &&& final(self).state is ScriptChunk
                &&& final(self).builder.level == old(self).builder.level
                &&& final(self).builder.script@ == old(self).builder.script@
                &&& final(self).builder.next == 0
                &&& (action matches RunAction::SendFile { name, bytes } && name@
                    == script_chunk_name_chars(old(self).builder.level, 0) && bytes@
                    == chunk_bytes(old(self).builder.script@, 0, old(self).cs()))
            },
            old(self).state is ScriptChunk ==> (event matches RunEvent::Delivered { id } ==> {
                let k = chunk_count(old(self).builder.script@.len(), old(self).cs());
                let nxt = old(self).builder.next as int;
                &&& (nxt + 1 < k ==> {
                    &&& final(self).state is ScriptChunk
                    &&& final(self).builder.level == old(self).builder.level
                    &&& final(self).builder.script@ == old(self).builder.script@
                    &&& final(self).builder.next == nxt + 1
                    &&& (action matches RunAction::SendFile { name, bytes } && name@
                        == script_chunk_name_chars(old(self).builder.level, (nxt + 1) as nat)
                        && bytes@ == chunk_bytes(
                        old(self).builder.script@,
                        (nxt + 1) as nat,
                        old(self).cs(),
                    ))
                })
                &&& (nxt + 1 == k && k == 1 ==> {
                    &&& final(self).state is Completion
                    &&& (action matches RunAction::SendText { content } && content@
                        == completion_chars(old(self).builder.endpoint@, id))
                })
                &&& (nxt + 1 == k && k > 1 ==> {
                    &&& final(self).state is Advisory
                    &&& final(self).builder.level == old(self).builder.level + 1
                    &&& final(self).builder.script@ == chain_script_bytes(
                        old(self).builder.endpoint@,
                        old(self).builder.draft_entries@.push(id),
                    )
                    &&& final(self).builder.next == 0
                    &&& chunk_count(final(self).builder.script@.len(), old(self).cs()) < k
                    &&& (action matches RunAction::SendText { content } && content@
                        == advisory_chars())
                })
            }),
            old(self).state is Completion ==> final(self).state is FinalEdit && (action matches
            RunAction::EditHead { text } && text@ == final_head_chars(
                old(self).archive_count as nat,
            )),
            old(self).state is FinalEdit ==> final(self).state is Finished && action
                is Finished,
    {
        match self.state {
            RunState::HeadStart => {
                proof {
                    lemma_chunk_count_covers(self.archive@.len(), self.cs());
                }
                let bytes = self.archive_chunk(0);
                self.state = RunState::ArchiveChunk;
                RunAction::SendFile { name: chunk_name(0), bytes }
            },
            RunState::ArchiveChunk => {
                let id = match event {
                    RunEvent::Delivered { id } => id,
                    RunEvent::Edited => {
                        proof {
                            assert(false);
                        }
                        0
                    },
                };
                self.builder.note_archive_chunk(id);
                self.archive_next = self.archive_next + 1;
                if self.archive_next < self.archive_count {
                    let bytes = self.archive_chunk(self.archive_next);
                    RunAction::SendFile { name: chunk_name(self.archive_next as u64), bytes }
                } else {
                    self.state = RunState::HeadUploading;
                    RunAction::EditHead {
                        text: String::from_str("Uploading download script..."),
                    }
                }
            },
            RunState::HeadUploading => {
                self.state = RunState::Advisory;
                RunAction::SendText {
                    content: String::from_str(
                        ":warning: Do not manually download files below! :warning:\n\nThose are for the download script.",
                    ),
                }
            },
            RunState::Advisory => {
                let sealing = match &self.builder.phase {
                    BuildPhase::Archive => true,
                    _ => false,
                };
                if sealing {
                    self.builder.seal_archive();
                }
                self.state = RunState::ScriptChunk;
                proof {
                    lemma_chunk_count_covers(self.builder.script@.len(), self.cs());
                }
                let name = self.builder.next_chunk_name();
                let bytes = self.builder.next_chunk();
                RunAction::SendFile { name, bytes }
            },
            RunState::ScriptChunk => {
                let id = match event {
                    RunEvent::Delivered { id } => id,
                    RunEvent::Edited => {
                        proof {
                            assert(false);
                        }
                        0
                    },
                };
                self.builder.on_chunk_delivered(id);
                if !self.builder.is_level_uploaded() {
                    let name = self.builder.next_chunk_name();
                    let bytes = self.builder.next_chunk();
                    RunAction::SendFile { name, bytes }
                } else {
                    match self.builder.finish_level() {
                        LevelOutcome::Terminal(content) => {
                            self.state = RunState::Completion;
                            RunAction::SendText { content }
                        },
                        LevelOutcome::Promoted => {
                            self.state = RunState::Advisory;
                            RunAction::SendText {
                                content: String::from_str(
                                    ":warning: Do not manually download files below! :warning:\n\nThose are for the download script.",
                                ),
                            }
                        },
                    }
                }
            },
            RunState::Completion => {
                self.state = RunState::FinalEdit;
                let text = String::from_str(
                    "Backup completed successfully.\n\nTo assemble the original archive, download all ",
                );
                let text = text.concat(dec_string(self.archive_count as u64).as_str());
                let text = text.concat(" chunks and concatenate them into a single file");
                proof {
                    assert(text@ =~= final_head_chars(self.archive_count as nat));
                }
                RunAction::EditHead { text }
            },
            RunState::FinalEdit => {
                self.state = RunState::Finished;
                RunAction::Finished
            },
            RunState::Finished => {
                proof {
                    assert(false);
                }
                RunAction::Finished
            },
        }
    }
}

} // verus!
