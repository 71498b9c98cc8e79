//! The recursive reassembly script chain.
//!
//! Level 0 reconstructs the original archive from its chunk messages; level
//! L+1 reconstructs level L's own script after that script had to be
//! chunked itself. The chain terminates as soon as a level's script fits in
//! one chunk: the closing message then inlines that single chunk's
//! identifier directly, with no further indirection.

use vstd::prelude::*;
use vstd::string::*;
use vstd::utf8::encode_utf8;
use vstd::utf8::is_ascii_chars;
use vstd::utf8::is_ascii_chars_encode_utf8;
use crate::chunks::chunk_bytes;
use crate::chunks::chunk_count;
use crate::chunks::chunk_of;
use crate::chunks::lemma_chunk_count_covers;
use crate::text::dec_chars;
use crate::text::dec_string;
use crate::text::lemma_dec_chars_ascii;
use crate::text::lemma_dec_chars_len_u64;

verus! {

/// The script that reconstructs the archive itself: a `dl` procedure that
/// resolves a message id to its attachment and appends it to the output
/// file, which is truncated up front.
pub open spec fn level0_header_bytes(endpoint: Seq<char>) -> Seq<u8> {
    "dl(){ curl -f -L \"$(curl -f -L \"".spec_bytes() + encode_utf8(endpoint)
        + "/messages/$1\"|grep -Eo '\"url\":\"[^\"]+\"'|grep -Eo 'https[^\"]+')\">>dl_backup.zip;if [ ! $? -eq 0 ];then sleep 5;dl \"$1\";fi };printf \"\">dl_backup.zip".spec_bytes()
}

/// The script that reconstructs the next level down into a temporary file.
pub open spec fn overflow_header_bytes(endpoint: Seq<char>) -> Seq<u8> {
    "TFILE=mktemp;dl(){ curl -f -L \"$(curl -f -L \"".spec_bytes() + encode_utf8(endpoint)
        + "/messages/$1\"|grep -Eo '\"url\":\"[^\"]+\"'|grep -Eo 'https[^\"]+')\">>$TFILE;if [ ! $? -eq 0 ];then sleep 5;dl \"$1\";fi };printf \"\">$TFILE".spec_bytes()
}

/// Run and remove the reconstructed temporary script.
pub open spec fn footer_bytes() -> Seq<u8> {
    ";sh $TFILE;rm $TFILE".spec_bytes()
}

/// One download call, appended per delivered chunk, in chunk-index order.
pub open spec fn dl_entry_bytes(id: u64) -> Seq<u8> {
    ";dl ".spec_bytes() + encode_utf8(dec_chars(id as nat))
}

/// The download calls for `ids`, in order.
pub open spec fn dl_entries_bytes(ids: Seq<u64>) -> Seq<u8>
    decreases ids.len(),
{
    if ids.len() == 0 {
        Seq::empty()
    } else {
        dl_entries_bytes(ids.drop_last()) + dl_entry_bytes(ids.last())
    }
}

/// The complete level-0 script for the archive chunks `ids`.
pub open spec fn level0_script_bytes(endpoint: Seq<char>, ids: Seq<u64>) -> Seq<u8> {
    level0_header_bytes(endpoint) + dl_entries_bytes(ids)
}

/// A higher level's script while it is still collecting entries.
pub open spec fn draft_bytes(endpoint: Seq<char>, ids: Seq<u64>) -> Seq<u8> {
    overflow_header_bytes(endpoint) + dl_entries_bytes(ids)
}

/// The complete script of a level above 0: it fetches the chunks of the
/// level below into a temporary file, then runs and removes it.
pub open spec fn chain_script_bytes(endpoint: Seq<char>, ids: Seq<u64>) -> Seq<u8> {
    overflow_header_bytes(endpoint) + dl_entries_bytes(ids) + footer_bytes()
}

/// The closing message once a level's script fit in a single chunk: a
/// one-liner that pipes that chunk straight into a shell.
pub open spec fn completion_chars(endpoint: Seq<char>, id: u64) -> Seq<char> {
    "Upload complete!\n\nTo automatically download the backup archive, use the following script:```sh\ncurl -f -L \"$(curl -f -L \""@
        + endpoint + "/messages/"@ + dec_chars(id as nat)
        + "\" | grep -Eo '\"url\":\"[^\"]+\"' | grep -Eo 'https[^\"]+')\" | sh -\n```\n\nMake sure `curl` and `grep` are installed."@
}

/// The attachment name of one script chunk.
pub open spec fn script_chunk_name_chars(level: u64, i: nat) -> Seq<char> {
    "script_"@ + dec_chars(level as nat) + "_"@ + dec_chars(i)
}

/// A download call is between 5 and 24 bytes: 4 for the call, then at most
/// 20 decimal digits.
pub proof fn lemma_dl_entry_len(id: u64)
    ensures
        5 <= dl_entry_bytes(id).len() <= 24,
{
    reveal_strlit(";dl ");
    assert(";dl "@.len() == 4);
    assert(is_ascii_chars(";dl "@));
    is_ascii_chars_encode_utf8(";dl "@);
    lemma_dec_chars_ascii(id as nat);
    lemma_dec_chars_len_u64(id as nat);
    is_ascii_chars_encode_utf8(dec_chars(id as nat));
}

/// The download calls for `k` chunks take at most `24 * k` bytes.
pub proof fn lemma_dl_entries_len(ids: Seq<u64>)
    ensures
        dl_entries_bytes(ids).len() <= 24 * ids.len(),
    decreases ids.len(),
{
    if ids.len() > 0 {
        lemma_dl_entries_len(ids.drop_last());
        lemma_dl_entry_len(ids.last());
    }
}

/// When a level's script took `k >= 2` chunks, the next level's script —
/// its header, one download call per chunk, and the footer — takes strictly
/// fewer, provided every chunk leaves 48 bytes of headroom beyond header
/// and footer. This is what makes the chain finite.
pub proof fn lemma_next_level_shrinks(h: nat, f: nat, k: nat, newlen: nat, cs: nat)
    requires
        k >= 2,
        newlen <= h + 24 * k + f,
        cs >= h + f + 48,
    ensures
        chunk_count(newlen, cs) < k,
{
    if newlen == 0 {
    } else {
        assert(newlen <= cs * (k - 1)) by (nonlinear_arith)
            requires
                k >= 2,
                newlen <= h + 24 * k + f,
                cs >= h + f + 48,
        ;
        assert((newlen + cs - 1) / (cs as int) <= k - 1) by (nonlinear_arith)
            requires
                newlen >= 1,
                cs >= 48,
                k >= 2,
                newlen <= cs * (k - 1),
        ;
    }
}

fn level0_header_vec(endpoint: &str) -> (v: Vec<u8>)
    ensures
        v@ == level0_header_bytes(endpoint@),
{
    let mut v = "dl(){ curl -f -L \"$(curl -f -L \"".as_bytes_vec();
    v.extend_from_slice(endpoint.as_bytes());
    let mut rest =
        "/messages/$1\"|grep -Eo '\"url\":\"[^\"]+\"'|grep -Eo 'https[^\"]+')\">>dl_backup.zip;if [ ! $? -eq 0 ];then sleep 5;dl \"$1\";fi };printf \"\">dl_backup.zip".as_bytes_vec();
    v.append(&mut rest);
    proof {
        assert(v@ =~= level0_header_bytes(endpoint@));
    }
    v
}

fn overflow_header_vec(endpoint: &str) -> (v: Vec<u8>)
    ensures
        v@ == overflow_header_bytes(endpoint@),
{
    let mut v = "TFILE=mktemp;dl(){ curl -f -L \"$(curl -f -L \"".as_bytes_vec();
    v.extend_from_slice(endpoint.as_bytes());
    let mut rest =
        "/messages/$1\"|grep -Eo '\"url\":\"[^\"]+\"'|grep -Eo 'https[^\"]+')\">>$TFILE;if [ ! $? -eq 0 ];then sleep 5;dl \"$1\";fi };printf \"\">$TFILE".as_bytes_vec();
    v.append(&mut rest);
    proof {
        assert(v@ =~= overflow_header_bytes(endpoint@));
    }
    v
}

fn footer_vec() -> (v: Vec<u8>)
    ensures
        v@ == footer_bytes(),
{
    ";sh $TFILE;rm $TFILE".as_bytes_vec()
}

fn dl_entry_vec(id: u64) -> (v: Vec<u8>)
    ensures
        v@ == dl_entry_bytes(id),
{
    let mut v = ";dl ".as_bytes_vec();
    let digits = dec_string(id);
    v.append(&mut digits.as_str().as_bytes_vec());
    proof {
        assert(v@ =~= dl_entry_bytes(id));
    }
    v
}

/// Where the builder stands: collecting archive download calls, uploading
/// the current level's script chunk by chunk, or finished.
pub enum BuildPhase {
    Archive,
    Uploading,
    Done,
}

/// What closing a level decided: the chain terminated with the closing
/// message's text, or the next level took over.
pub enum LevelOutcome {
    Terminal(String),
    Promoted,
}

/// Builds the reassembly script chain, one level at a time, as chunk
/// deliveries are reported to it.
pub struct ReassemblyScriptBuilder {
    pub endpoint: String,
    pub chunk_size: usize,
    pub phase: BuildPhase,
    /// The current level, starting at 0.
    pub level: u64,
    /// The current level's script: complete once uploading has begun.
    pub script: Vec<u8>,
    /// The next level's script, collecting one entry per delivered chunk.
    pub draft: Vec<u8>,
    /// The next chunk of `script` awaiting delivery.
    pub next: usize,
    /// The identifier of the last delivered script chunk.
    pub last_id: u64,
    /// The ids recorded in `script`, in order.
    pub entries: Ghost<Seq<u64>>,
    /// The ids recorded in `draft`, in order.
    pub draft_entries: Ghost<Seq<u64>>,
}

impl ReassemblyScriptBuilder {
    /// The smallest chunk size the chain's termination argument tolerates.
    pub open spec fn spec_min_chunk_size(endpoint: Seq<char>) -> int {
        overflow_header_bytes(endpoint).len() + footer_bytes().len() + 48int
    }

    pub open spec fn wf(&self) -> bool {
        &&& self.chunk_size as int >= Self::spec_min_chunk_size(self.endpoint@)
        &&& match self.phase {
            BuildPhase::Archive => {
                &&& self.level == 0
                &&& self.next == 0
                &&& self.script@ == level0_script_bytes(self.endpoint@, self.entries@)
            },
            BuildPhase::Uploading => {
                &&& self.script@ == if self.level == 0 {
                    level0_script_bytes(self.endpoint@, self.entries@)
                } else {
                    chain_script_bytes(self.endpoint@, self.entries@)
                }
                &&& self.next <= chunk_count(self.script@.len(), self.chunk_size as nat)
                &&& self.level + chunk_count(self.script@.len(), self.chunk_size as nat)
                    <= usize::MAX
                &&& self.draft@ == draft_bytes(self.endpoint@, self.draft_entries@)
                &&& self.draft_entries@.len() == self.next
                &&& (self.next > 0 ==> self.last_id == self.draft_entries@.last())
            },
            BuildPhase::Done => true,
        }
    }

    /// Start a chain for `endpoint`, splitting scripts at `chunk_size`.
    /// Refused when the chunk size cannot even hold a level's header and
    /// footer with headroom for one download call per chunk.
    pub fn new(endpoint: String, chunk_size: usize) -> (r: Option<Self>)
        ensures
            r is Some ==> r->Some_0.wf(),
            r is Some ==> r->Some_0.phase is Archive,
            r is Some ==> r->Some_0.endpoint@ == endpoint@,
            r is Some ==> r->Some_0.chunk_size == chunk_size,
            r is Some ==> r->Some_0.entries@ == Seq::<u64>::empty(),
            r is Some ==> r->Some_0.script@ == level0_script_bytes(endpoint@, Seq::empty()),
            r is None ==> (chunk_size as int) < Self::spec_min_chunk_size(endpoint@),
    {
        let header = overflow_header_vec(endpoint.as_str());
        let footer = footer_vec();
        if header.len() <= usize::MAX - 48 && footer.len() <= usize::MAX - 48 - header.len()
            && chunk_size >= header.len() + footer.len() + 48 {
            let script = level0_header_vec(endpoint.as_str());
            proof {
                assert(level0_script_bytes(endpoint@, Seq::empty()) =~= level0_header_bytes(
                    endpoint@,
                ));
            }
            Some(
                ReassemblyScriptBuilder {
                    endpoint,
                    chunk_size,
                    phase: BuildPhase::Archive,
                    level: 0,
                    script,
                    draft: Vec::new(),
                    next: 0,
                    last_id: 0,
                    entries: Ghost(Seq::empty()),
                    draft_entries: Ghost(Seq::empty()),
                },
            )
        } else {
            None
        }
    }

    /// Record one delivered archive chunk: its download call joins the
    /// level-0 script, in delivery order.
    pub fn note_archive_chunk(&mut self, id: u64)
        requires
            old(self).wf(),
            old(self).phase is Archive,
        ensures
            final(self).wf(),
            final(self).phase is Archive,
            final(self).endpoint == old(self).endpoint,
            final(self).chunk_size == old(self).chunk_size,
            final(self).entries@ == old(self).entries@.push(id),
            final(self).script@ == old(self).script@ + dl_entry_bytes(id),
    {
        let mut entry = dl_entry_vec(id);
        self.script.append(&mut entry);
        proof {
            self.entries@ = self.entries@.push(id);
            assert(self.entries@.drop_last() =~= old(self).entries@);
            assert(self.script@ =~= level0_script_bytes(self.endpoint@, self.entries@));
        }
    }

    /// The archive is fully uploaded: the level-0 script is complete, and
    /// its own upload begins.
    pub fn seal_archive(&mut self)
        requires
            old(self).wf(),
            old(self).phase is Archive,
        ensures
            final(self).wf(),
            final(self).phase is Uploading,
            final(self).endpoint == old(self).endpoint,
            final(self).chunk_size == old(self).chunk_size,
            final(self).level == 0,
            final(self).next == 0,
            final(self).entries@ == old(self).entries@,
            final(self).script@ == old(self).script@,
    {
        let draft = overflow_header_vec(self.endpoint.as_str());
        self.draft = draft;
        self.phase = BuildPhase::Uploading;
        let script_len = self.script.len();
        proof {
            self.draft_entries@ = Seq::empty();
            assert(self.draft@ =~= draft_bytes(self.endpoint@, self.draft_entries@));
            let n = script_len as nat;
            let cs = self.chunk_size as nat;
            assert(chunk_count(n, cs) <= usize::MAX) by (nonlinear_arith)
                requires
                    cs >= 48,
                    n <= usize::MAX,
                    usize::MAX >= 48,
                    chunk_count(n, cs) == if n == 0 {
                        1nat
                    } else {
                        (((n + cs - 1) as int) / (cs as int)) as nat
                    },
            ;
        }
    }

    /// How many chunks the current level's script needs.
    pub fn script_chunk_count(&self) -> (k: usize)
        requires
            self.wf(),
            self.phase is Uploading,
        ensures
            k == chunk_count(self.script@.len(), self.chunk_size as nat),
            k >= 1,
    {
        let len = self.script.len();
        if len == 0 {
            1
        } else {
            let k = 1 + (len - 1) / self.chunk_size;
            proof {
                let cs = self.chunk_size as int;
                assert(1 + (len - 1) / cs == (len + cs - 1) / cs) by (nonlinear_arith)
                    requires
                        len >= 1,
                        cs >= 1,
                ;
            }
            k
        }
    }

    /// The attachment name of the next script chunk.
    pub fn next_chunk_name(&self) -> (r: String)
        requires
            self.wf(),
            self.phase is Uploading,
        ensures
            r@ == script_chunk_name_chars(self.level, self.next as nat),
    {
        let r = String::from_str("script_");
        let r = r.concat(dec_string(self.level).as_str());
        let r = r.concat("_");
        let r = r.concat(dec_string(self.next as u64).as_str());
        proof {
            assert(r@ =~= script_chunk_name_chars(self.level, self.next as nat));
        }
        r
    }

    /// The bytes of the next script chunk.
    pub fn next_chunk(&self) -> (c: Vec<u8>)
        requires
            self.wf(),
            self.phase is Uploading,
            self.next < chunk_count(self.script@.len(), self.chunk_size as nat),
        ensures
            c@ == chunk_bytes(self.script@, self.next as nat, self.chunk_size as nat),
    {
        let script_len = self.script.len();
        proof {
            lemma_chunk_count_covers(self.script@.len(), self.chunk_size as nat);
            let k = chunk_count(self.script@.len(), self.chunk_size as nat);
            let cs = self.chunk_size as nat;
            let n = script_len as nat;
            if n > 0 {
                assert(self.next * cs <= (k - 1) * cs && (k - 1) * cs < n) by (nonlinear_arith)
                    requires
                        cs > 0,
                        (self.next as nat) < k,
                        (k - 1) * cs < n,
                ;
            } else {
                assert(k == 1 && self.next == 0);
                assert(self.next * self.chunk_size == 0) by (nonlinear_arith)
                    requires
                        self.next == 0,
                ;
            }
            assert(self.next * self.chunk_size <= usize::MAX);
        }
        chunk_of(self.script.as_slice(), self.next, self.chunk_size)
    }

    /// True once every chunk of the current level's script is delivered.
    pub fn is_level_uploaded(&self) -> (r: bool)
        requires
            self.wf(),
            self.phase is Uploading,
        ensures
            r <==> self.next == chunk_count(self.script@.len(), self.chunk_size as nat),
    {
        let k = self.script_chunk_count();
        self.next == k
    }

    /// Record the delivery of the next script chunk: the draft of the level
    /// above gains its download call, in delivery order.
    pub fn on_chunk_delivered(&mut self, id: u64)
        requires
            old(self).wf(),
            old(self).phase is Uploading,
            old(self).next < chunk_count(old(self).script@.len(), old(self).chunk_size as nat),
        ensures
            final(self).wf(),
            final(self).phase is Uploading,
            final(self).endpoint == old(self).endpoint,
            final(self).chunk_size == old(self).chunk_size,
            final(self).level == old(self).level,
            final(self).script@ == old(self).script@,
            final(self).entries@ == old(self).entries@,
            final(self).next == old(self).next + 1,
            final(self).last_id == id,
            final(self).draft_entries@ == old(self).draft_entries@.push(id),
            final(self).draft@ == old(self).draft@ + dl_entry_bytes(id),
    {
        let mut entry = dl_entry_vec(id);
        self.draft.append(&mut entry);
        self.last_id = id;
        self.next = self.next + 1;
        proof {
            self.draft_entries@ = self.draft_entries@.push(id);
            assert(self.draft_entries@.drop_last() =~= old(self).draft_entries@);
            assert(self.draft@ =~= draft_bytes(self.endpoint@, self.draft_entries@));
        }
    }

    /// Close the current level once all its chunks are delivered. A level
    /// that needed exactly one chunk terminates the chain: the closing
    /// message inlines that chunk's identifier. Otherwise the draft becomes
    /// the next level's script — and needs strictly fewer chunks than this
    /// level did, which is why the chain is finite.
    pub fn finish_level(&mut self) -> (r: LevelOutcome)
        requires
            old(self).wf(),
            old(self).phase is Uploading,
            old(self).next == chunk_count(old(self).script@.len(), old(self).chunk_size as nat),
        ensures
            final(self).endpoint == old(self).endpoint,
            final(self).chunk_size == old(self).chunk_size,
            chunk_count(old(self).script@.len(), old(self).chunk_size as nat) == 1 <==> r
                is Terminal,
            r is Terminal ==> final(self).phase is Done && r->Terminal_0@ == completion_chars(
                old(self).endpoint@,
                old(self).last_id,
            ),
            r is Promoted ==> final(self).wf() && final(self).phase is Uploading,
            r is Promoted ==> final(self).level == old(self).level + 1,
            r is Promoted ==> final(self).script@ == chain_script_bytes(
                old(self).endpoint@,
                old(self).draft_entries@,
            ),
            r is Promoted ==> final(self).entries@ == old(self).draft_entries@,
            r is Promoted ==> final(self).next == 0,
            r is Promoted ==> chunk_count(final(self).script@.len(), final(self).chunk_size as nat)
                < chunk_count(old(self).script@.len(), old(self).chunk_size as nat),
    {
        let k = self.script_chunk_count();
        if k == 1 {
            self.phase = BuildPhase::Done;
            let text = String::from_str(
                "Upload complete!\n\nTo automatically download the backup archive, use the following script:```sh\ncurl -f -L \"$(curl -f -L \"",
            );
            let text = text.concat(self.endpoint.as_str());
            let text = text.concat("/messages/");
            let text = text.concat(dec_string(self.last_id).as_str());
            let text = text.concat(
                "\" | grep -Eo '\"url\":\"[^\"]+\"' | grep -Eo 'https[^\"]+')\" | sh -\n```\n\nMake sure `curl` and `grep` are installed.",
            );
            proof {
                assert(text@ =~= completion_chars(old(self).endpoint@, old(self).last_id));
            }
            LevelOutcome::Terminal(text)
        } else {
            let mut footer = footer_vec();
            self.draft.append(&mut footer);
            core::mem::swap(&mut self.script, &mut self.draft);
            let fresh = overflow_header_vec(self.endpoint.as_str());
            self.draft = fresh;
            self.level = self.level + 1;
            self.next = 0;
            proof {
                self.entries@ = old(self).draft_entries@;
                self.draft_entries@ = Seq::empty();
                assert(self.script@ =~= chain_script_bytes(self.endpoint@, self.entries@));
                assert(self.draft@ =~= draft_bytes(self.endpoint@, self.draft_entries@));
                let h = overflow_header_bytes(self.endpoint@).len();
                let f = footer_bytes().len();
                lemma_dl_entries_len(self.entries@);
                lemma_next_level_shrinks(
                    h as nat,
                    f as nat,
                    k as nat,
                    self.script@.len(),
                    self.chunk_size as nat,
                );
            }
            LevelOutcome::Promoted
        }
    }
}

} // verus!
