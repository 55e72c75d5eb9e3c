//! Session state and its priority command queue: commands run highest
//! priority first, in the order they were queued within one priority.

use vstd::prelude::*;
use std::collections::{HashMap, HashSet};
use std::path::PathBuf;
use crate::gxcore::commands::NandSkeleton;
use crate::gxcore::data::optini::{
    empty_options, field_value, last_write, merged, parse_options_ini, text_lines, OptField, OptionsIni,
    OptionsIniError, is_header_line,
};
use crate::gxcore::images::blocks::NandLayout;
use crate::text::{push_text, str_chars, string_from_chars, to_lowercase, unicode_lowercase};

verus! {

/// `std::path::PathBuf`, carried through commands unchanged.
#[verifier::external_type_specification]
#[verifier::external_body]
pub struct ExPathBuf(PathBuf);

#[derive(Debug)]
pub enum SessionError {
    Io(String),
    OptionsIniParse(String),
    IniParse(String),
    IniDiscovery(String),
    IniApply(String),
    BuildTypeNotSet,
    ConsoleTypeNotSet,
    IniRead { path: PathBuf },
    SmcAutopatch { error: String, path: PathBuf },
    SmcConfig(String),
    Keyvault(String),
    InvalidHexU8 { value: String, error: String },
    InvalidDecimalU8 { value: String, error: String },
    InvalidHexU16 { value: String, error: String },
    InvalidDecimalU16 { value: String, error: String },
    NoActiveNand,
    Other(String),
}

#[derive(Debug)]
#[allow(inconsistent_fields)]
pub enum InternalCommand {
    ParseIni {
        path: PathBuf,
        target: String,
        ini_base: PathBuf,
        common: PathBuf,
        data: PathBuf,
        payloads: PathBuf,
        smc: PathBuf,
    },
    ParseImage { path: PathBuf, key: Option<[u8; 16]> },
    ParseKey { key: [u8; 16] },
    ParseKeybin { key: Option<[u8; 16]> },
    ParseFlashfs { path: PathBuf },
    ParsePatch { path: PathBuf },
    ApplyPatch { path: PathBuf, ptype: u8, target: Option<u8> },
    ApplyEcc { path: PathBuf },
    ExtractAll { output_dir: PathBuf, all: bool, include_decrypted: bool },
    Replace { id: u8, path: PathBuf },
    List,
    Delete { id: u8 },
    Clear,
    Compress,
    Update { path: PathBuf },
    Build { output: PathBuf, target: u8 },
    FinalizeFlashfs,
    FinalizeMobile,
    SessionInit { base: Option<PathBuf>, common: Option<PathBuf> },
    SessionList,
    SessionDelete { id: u8 },
    SessionRun,
    CreateImage { layout: NandLayout },
    ExtractStfs { path: PathBuf, target_dir: PathBuf },
    SwapBootloader { bl_type: String, path: PathBuf, is_rebooter: bool },
    ApplyOptions,
    ApplySmcSignature { json: String },
}

/// Run priority of a command (higher runs first).
pub open spec fn priority(c: InternalCommand) -> u8 {
    match c {
        InternalCommand::ParseKey { .. } => 160,
        InternalCommand::ParseKeybin { .. } => 160,
        InternalCommand::ParseImage { .. } => 150,
        InternalCommand::CreateImage { .. } => 150,
        InternalCommand::ApplyEcc { .. } => 149,
        InternalCommand::SwapBootloader { .. } => 140,
        InternalCommand::ExtractStfs { .. } => 110,
        InternalCommand::Update { .. } => 110,
        InternalCommand::SessionInit { .. } => 100,
        InternalCommand::SessionList => 100,
        InternalCommand::SessionDelete { .. } => 100,
        InternalCommand::ParseIni { .. } => 100,
        InternalCommand::ParseFlashfs { .. } => 100,
        InternalCommand::ParsePatch { .. } => 100,
        InternalCommand::FinalizeFlashfs => 90,
        InternalCommand::FinalizeMobile => 89,
        InternalCommand::ExtractAll { .. } => 88,
        InternalCommand::Replace { .. } => 87,
        InternalCommand::List => 86,
        InternalCommand::Delete { .. } => 85,
        InternalCommand::Clear => 84,
        InternalCommand::ApplyOptions => 80,
        InternalCommand::ApplyPatch { .. } => 79,
        InternalCommand::ApplySmcSignature { .. } => 79,
        InternalCommand::Compress => 78,
        InternalCommand::SessionRun => 50,
        InternalCommand::Build { .. } => 0,
    }
}

/// Loading an image (parsing one or creating a blank one) runs before every
/// command but the key commands, which run first: before applying patches and
/// options, parsing INIs, patches and FlashFS, the asset updates and the build.
pub proof fn lemma_image_loads_first(c: InternalCommand, path: PathBuf, key: Option<[u8; 16]>)
    ensures
        c is ParseKey || c is ParseKeybin ==> priority(c) > priority(InternalCommand::ParseImage { path, key }),
        c is CreateImage ==> priority(c) == priority(InternalCommand::ParseImage { path, key }),
        !(c is ParseKey || c is ParseKeybin || c is ParseImage || c is CreateImage) ==> priority(c) < priority(
            InternalCommand::ParseImage { path, key },
        ),
{
}

/// The build runs last: every other command runs before it.
pub proof fn lemma_build_runs_last(c: InternalCommand, output: PathBuf, target: u8)
    ensures
        !(c is Build) ==> priority(c) > priority(InternalCommand::Build { output, target }),
{
}

/// A queued image load runs before a queued command of any other kind but the
/// key commands, whatever their order in the queue.
pub proof fn lemma_queued_image_runs_before(a: QueuedCommand, b: QueuedCommand)
    requires
        a.command is ParseImage || a.command is CreateImage,
        !(b.command is ParseKey || b.command is ParseKeybin || b.command is ParseImage || b.command is CreateImage),
    ensures
        runs_before(a, b),
        !runs_before(b, a),
{
}

/// The order in which command kinds run, first to last: the key commands;
/// image loads; ECC; bootloader swaps; STFS extraction and asset updates;
/// session commands and INI, FlashFS and patch parsing; FlashFS, then mobile
/// finalisation; extraction; replace, list, delete, clear; applying options;
/// applying patches and SMC signatures; compression; a session run; the build.
/// Kinds in one group share a rank and run in queue order; a command runs
/// before every command of a later group (and, by `runs_before`'s transitivity,
/// of any group after it).
pub proof fn lemma_run_order(a: QueuedCommand, b: QueuedCommand)
    ensures
        (a.command is ParseKey || a.command is ParseKeybin) && (b.command is ParseKey || b.command is ParseKeybin) ==> priority(a.command) == priority(b.command),
        (a.command is ParseImage || a.command is CreateImage) && (b.command is ParseImage || b.command is CreateImage) ==> priority(a.command) == priority(b.command),
        (a.command is ExtractStfs || a.command is Update) && (b.command is ExtractStfs || b.command is Update) ==> priority(a.command) == priority(b.command),
        (a.command is SessionInit || a.command is SessionList || a.command is SessionDelete || a.command is ParseIni || a.command is ParseFlashfs || a.command is ParsePatch) && (b.command is SessionInit || b.command is SessionList || b.command is SessionDelete || b.command is ParseIni || b.command is ParseFlashfs || b.command is ParsePatch) ==> priority(a.command) == priority(b.command),
        (a.command is ApplyPatch || a.command is ApplySmcSignature) && (b.command is ApplyPatch || b.command is ApplySmcSignature) ==> priority(a.command) == priority(b.command),
        (a.command is ParseKey || a.command is ParseKeybin) && (b.command is ParseImage || b.command is CreateImage) ==> runs_before(a, b),
        (a.command is ParseImage || a.command is CreateImage) && (b.command is ApplyEcc) ==> runs_before(a, b),
        (a.command is ApplyEcc) && (b.command is SwapBootloader) ==> runs_before(a, b),
        (a.command is SwapBootloader) && (b.command is ExtractStfs || b.command is Update) ==> runs_before(a, b),
        (a.command is ExtractStfs || a.command is Update) && (b.command is SessionInit || b.command is SessionList || b.command is SessionDelete || b.command is ParseIni || b.command is ParseFlashfs || b.command is ParsePatch) ==> runs_before(a, b),
        (a.command is SessionInit || a.command is SessionList || a.command is SessionDelete || a.command is ParseIni || a.command is ParseFlashfs || a.command is ParsePatch) && (b.command is FinalizeFlashfs) ==> runs_before(a, b),
        (a.command is FinalizeFlashfs) && (b.command is FinalizeMobile) ==> runs_before(a, b),
        (a.command is FinalizeMobile) && (b.command is ExtractAll) ==> runs_before(a, b),
        (a.command is ExtractAll) && (b.command is Replace) ==> runs_before(a, b),
        (a.command is Replace) && (b.command is List) ==> runs_before(a, b),
        (a.command is List) && (b.command is Delete) ==> runs_before(a, b),
        (a.command is Delete) && (b.command is Clear) ==> runs_before(a, b),
        (a.command is Clear) && (b.command is ApplyOptions) ==> runs_before(a, b),
        (a.command is ApplyOptions) && (b.command is ApplyPatch || b.command is ApplySmcSignature) ==> runs_before(a, b),
        (a.command is ApplyPatch || a.command is ApplySmcSignature) && (b.command is Compress) ==> runs_before(a, b),
        (a.command is Compress) && (b.command is SessionRun) ==> runs_before(a, b),
        (a.command is SessionRun) && (b.command is Build) ==> runs_before(a, b),
{
}

impl InternalCommand {
    pub fn priority_score(&self) -> (r: u8)
        ensures
            r == priority(*self),
    {
        match self {
            InternalCommand::ParseKey { .. } => 160,
            InternalCommand::ParseKeybin { .. } => 160,
            InternalCommand::ParseImage { .. } => 150,
            InternalCommand::CreateImage { .. } => 150,
            InternalCommand::ApplyEcc { .. } => 149,
            InternalCommand::SwapBootloader { .. } => 140,
            InternalCommand::ExtractStfs { .. } => 110,
            InternalCommand::Update { .. } => 110,
            InternalCommand::SessionInit { .. } => 100,
            InternalCommand::SessionList => 100,
            InternalCommand::SessionDelete { .. } => 100,
            InternalCommand::ParseIni { .. } => 100,
            InternalCommand::ParseFlashfs { .. } => 100,
            InternalCommand::ParsePatch { .. } => 100,
            InternalCommand::FinalizeFlashfs => 90,
            InternalCommand::FinalizeMobile => 89,
            InternalCommand::ExtractAll { .. } => 88,
            InternalCommand::Replace { .. } => 87,
            InternalCommand::List => 86,
            InternalCommand::Delete { .. } => 85,
            InternalCommand::Clear => 84,
            InternalCommand::ApplyOptions => 80,
            InternalCommand::ApplyPatch { .. } => 79,
            InternalCommand::ApplySmcSignature { .. } => 79,
            InternalCommand::Compress => 78,
            InternalCommand::SessionRun => 50,
            InternalCommand::Build { .. } => 0,
        }
    }
}

#[derive(Debug)]
pub struct QueuedCommand {
    pub sequence_id: usize,
    pub command: InternalCommand,
}

/// `a` runs before `b`: higher priority, or equal priority and queued earlier.
pub open spec fn runs_before(a: QueuedCommand, b: QueuedCommand) -> bool {
    priority(a.command) > priority(b.command) || (priority(a.command) == priority(b.command) && a.sequence_id
        < b.sequence_id)
}

impl QueuedCommand {
    /// Whether this command runs before `other`.
    pub fn runs_before(&self, other: &QueuedCommand) -> (r: bool)
        ensures
            r == runs_before(*self, *other),
    {
        let p = self.command.priority_score();
        let q = other.command.priority_score();
        p > q || (p == q && self.sequence_id < other.sequence_id)
    }
}

pub struct Session {
    pub queue: Vec<QueuedCommand>,
    pub next_seq_id: usize,
    pub pending_assets: HashMap<String, Vec<u8>>,
    pub bootloader_assets: HashMap<String, Vec<u8>>,
    pub security_assets: HashMap<String, Vec<u8>>,
    pub flashfs_assets: HashMap<String, Vec<u8>>,
    pub flashfs_allowlist: Option<HashSet<String>>,
    pub active_nand: Option<NandSkeleton>,
    pub options: OptionsIni,
    pub pending_key: Option<[u8; 16]>,
    pub last_error: Option<String>,
    pub build_type: Option<String>,
    pub console_type: Option<String>,
    pub ini_dir: Option<PathBuf>,
    pub common_dir: Option<PathBuf>,
    pub data_dir: Option<PathBuf>,
    pub output_path: Option<PathBuf>,
    pub ini_ext: Option<String>,
    pub bl_ext: Option<String>,
    pub addons: Vec<String>,
    pub build_ini_loaded: bool,
}

/// Everything but the queue and the sequence counter is equal.
pub open spec fn same_but_queue(a: Session, b: Session) -> bool {
    &&& a.pending_assets@ == b.pending_assets@
    &&& a.bootloader_assets@ == b.bootloader_assets@
    &&& a.security_assets@ == b.security_assets@
    &&& a.flashfs_assets@ == b.flashfs_assets@
    &&& a.flashfs_allowlist == b.flashfs_allowlist
    &&& a.active_nand == b.active_nand
    &&& a.options == b.options
    &&& a.pending_key == b.pending_key
    &&& a.last_error == b.last_error
    &&& a.build_type == b.build_type
    &&& a.console_type == b.console_type
    &&& a.ini_dir == b.ini_dir
    &&& a.common_dir == b.common_dir
    &&& a.data_dir == b.data_dir
    &&& a.output_path == b.output_path
    &&& a.ini_ext == b.ini_ext
    &&& a.bl_ext == b.bl_ext
    &&& a.addons@ == b.addons@
    &&& a.build_ini_loaded == b.build_ini_loaded
}

/// `after` is `before` with `c` queued under the next sequence id.
pub open spec fn enqueued(before: Session, after: Session, c: InternalCommand) -> bool {
    &&& after.queue@ == before.queue@.push(QueuedCommand { sequence_id: before.next_seq_id, command: c })
    &&& after.next_seq_id == before.next_seq_id + 1
    &&& same_but_queue(before, after)
}

/// Where a swapped bootloader goes.
#[derive(Debug, Clone, Copy, PartialEq, Eq, Structural)]
pub enum SwapTarget {
    Cb,
    CbA,
    CbB,
    CbX,
    Cd,
    Ce,
    Cf,
    Cg,
    Smc,
}

/// The target of a (lower-cased) bootloader type name.
pub open spec fn swap_target_spec(lower: Seq<char>) -> Option<SwapTarget> {
    if lower == "cb"@ {
        Some(SwapTarget::Cb)
    } else if lower == "cba"@ {
        Some(SwapTarget::CbA)
    } else if lower == "cbb"@ {
        Some(SwapTarget::CbB)
    } else if lower == "cbx"@ {
        Some(SwapTarget::CbX)
    } else if lower == "cd"@ {
        Some(SwapTarget::Cd)
    } else if lower == "ce"@ {
        Some(SwapTarget::Ce)
    } else if lower == "cf"@ {
        Some(SwapTarget::Cf)
    } else if lower == "cg"@ {
        Some(SwapTarget::Cg)
    } else if lower == "smc"@ {
        Some(SwapTarget::Smc)
    } else {
        None
    }
}

/// The bootloader a swap names: `cb`, `cba`, `cbb`, `cbx`, `cd`, `ce`, `cf`,
/// `cg` and `smc` (lower-cased) each name their own slot, and no other name
/// names one.
pub proof fn lemma_swap_target_names(name: Seq<char>)
    ensures
        swap_target_spec("cb"@) == Some(SwapTarget::Cb),
        swap_target_spec("cba"@) == Some(SwapTarget::CbA),
        swap_target_spec("cbb"@) == Some(SwapTarget::CbB),
        swap_target_spec("cbx"@) == Some(SwapTarget::CbX),
        swap_target_spec("cd"@) == Some(SwapTarget::Cd),
        swap_target_spec("ce"@) == Some(SwapTarget::Ce),
        swap_target_spec("cf"@) == Some(SwapTarget::Cf),
        swap_target_spec("cg"@) == Some(SwapTarget::Cg),
        swap_target_spec("smc"@) == Some(SwapTarget::Smc),
        swap_target_spec(name) == Some(SwapTarget::Cb) ==> name == "cb"@,
        swap_target_spec(name) == Some(SwapTarget::CbA) ==> name == "cba"@,
        swap_target_spec(name) == Some(SwapTarget::CbB) ==> name == "cbb"@,
        swap_target_spec(name) == Some(SwapTarget::CbX) ==> name == "cbx"@,
        swap_target_spec(name) == Some(SwapTarget::Cd) ==> name == "cd"@,
        swap_target_spec(name) == Some(SwapTarget::Ce) ==> name == "ce"@,
        swap_target_spec(name) == Some(SwapTarget::Cf) ==> name == "cf"@,
        swap_target_spec(name) == Some(SwapTarget::Cg) ==> name == "cg"@,
        swap_target_spec(name) == Some(SwapTarget::Smc) ==> name == "smc"@,
        !(name == "cb"@ || name == "cba"@ || name == "cbb"@ || name == "cbx"@ || name == "cd"@ || name == "ce"@ || name == "cf"@ || name == "cg"@ || name == "smc"@) ==> swap_target_spec(name) is None,
{
    reveal_strlit("cb");
    assert("cb"@.len() == 2);
    reveal_strlit("cba");
    assert("cba"@.len() == 3);
    reveal_strlit("cbb");
    assert("cbb"@.len() == 3);
    reveal_strlit("cbx");
    assert("cbx"@.len() == 3);
    reveal_strlit("cd");
    assert("cd"@.len() == 2);
    reveal_strlit("ce");
    assert("ce"@.len() == 2);
    reveal_strlit("cf");
    assert("cf"@.len() == 2);
    reveal_strlit("cg");
    assert("cg"@.len() == 2);
    reveal_strlit("smc");
    assert("smc"@.len() == 3);
    assert("cb"@[1] != "cd"@[1]);
    assert("cb"@[1] != "ce"@[1]);
    assert("cb"@[1] != "cf"@[1]);
    assert("cb"@[1] != "cg"@[1]);
    assert("cba"@[2] != "cbb"@[2]);
    assert("cba"@[2] != "cbx"@[2]);
    assert("cba"@[0] != "smc"@[0]);
    assert("cbb"@[2] != "cbx"@[2]);
    assert("cbb"@[0] != "smc"@[0]);
    assert("cbx"@[0] != "smc"@[0]);
    assert("cd"@[1] != "ce"@[1]);
    assert("cd"@[1] != "cf"@[1]);
    assert("cd"@[1] != "cg"@[1]);
    assert("ce"@[1] != "cf"@[1]);
    assert("ce"@[1] != "cg"@[1]);
    assert("cf"@[1] != "cg"@[1]);
}

/// A swap to apply to the active NAND: the slot, whether the rebooter's loaders
/// are meant, and the bootloader's bytes (the SMC's bytes replace the image's
/// SMC).
#[derive(Debug)]
pub struct SwapPlan {
    pub target: SwapTarget,
    pub is_rebooter: bool,
    pub data: Vec<u8>,
}

fn text_is(v: &Vec<char>, t: &str) -> (r: bool)
    ensures
        r == (v@ == t@),
{
    let c = str_chars(t);
    if v.len() != c.len() {
        return false;
    }
    let mut i: usize = 0;
    while i < v.len()
        invariant
            i <= v@.len() == c@.len(),
            c@ == t@,
            v@.subrange(0, i as int) == c@.subrange(0, i as int),
        decreases v@.len() - i,
    {
        if v[i] != c[i] {
            assert(v@[i as int] != c@[i as int]);
            return false;
        }
        i += 1;
        assert(v@.subrange(0, i as int) =~= c@.subrange(0, i as int));
    }
    assert(v@ =~= v@.subrange(0, v@.len() as int));
    assert(c@ =~= c@.subrange(0, c@.len() as int));
    true
}

/// The target of a bootloader type name, compared lower-cased.
pub fn swap_target(bl_type: &str) -> (r: Option<SwapTarget>)
    ensures
        r == swap_target_spec(unicode_lowercase(bl_type@)),
{
    let v = str_chars(bl_type);
    let l = to_lowercase(v.as_slice());
    if text_is(&l, "cb") {
        Some(SwapTarget::Cb)
    } else if text_is(&l, "cba") {
        Some(SwapTarget::CbA)
    } else if text_is(&l, "cbb") {
        Some(SwapTarget::CbB)
    } else if text_is(&l, "cbx") {
        Some(SwapTarget::CbX)
    } else if text_is(&l, "cd") {
        Some(SwapTarget::Cd)
    } else if text_is(&l, "ce") {
        Some(SwapTarget::Ce)
    } else if text_is(&l, "cf") {
        Some(SwapTarget::Cf)
    } else if text_is(&l, "cg") {
        Some(SwapTarget::Cg)
    } else if text_is(&l, "smc") {
        Some(SwapTarget::Smc)
    } else {
        None
    }
}

} // verus!

verus! {

impl Session {
    /// Queued sequence ids are distinct and below the next one.
    pub open spec fn wf(&self) -> bool {
        &&& forall|i: int| 0 <= i < self.queue@.len() ==> (#[trigger] self.queue@[i]).sequence_id < self.next_seq_id
        &&& forall|i: int, j: int|
            0 <= i < j < self.queue@.len() ==> (#[trigger] self.queue@[i]).sequence_id != (#[trigger] self.queue@[j]).sequence_id
    }

    /// A session with nothing queued or loaded and default options.
    pub fn new() -> (r: Self)
        ensures
            r.queue@.len() == 0,
            r.next_seq_id == 0,
            r.pending_assets@ == Map::<String, Vec<u8>>::empty(),
            r.bootloader_assets@ == Map::<String, Vec<u8>>::empty(),
            r.security_assets@ == Map::<String, Vec<u8>>::empty(),
            r.flashfs_assets@ == Map::<String, Vec<u8>>::empty(),
            r.flashfs_allowlist is None,
            r.active_nand is None,
            r.options == empty_options(),
            r.pending_key is None,
            r.last_error is None,
            r.build_type is None,
            r.console_type is None,
            r.ini_dir is None,
            r.common_dir is None,
            r.data_dir is None,
            r.output_path is None,
            r.ini_ext is None,
            r.bl_ext is None,
            r.addons@.len() == 0,
            !r.build_ini_loaded,
            r.wf(),
    {
        Session {
            queue: Vec::new(),
            next_seq_id: 0,
            pending_assets: HashMap::new(),
            bootloader_assets: HashMap::new(),
            security_assets: HashMap::new(),
            flashfs_assets: HashMap::new(),
            flashfs_allowlist: None,
            active_nand: None,
            options: OptionsIni::new(),
            pending_key: None,
            last_error: None,
            build_type: None,
            console_type: None,
            ini_dir: None,
            common_dir: None,
            data_dir: None,
            output_path: None,
            ini_ext: None,
            bl_ext: None,
            addons: Vec::new(),
            build_ini_loaded: false,
        }
    }

    /// Queues a command under the next sequence id.
    pub fn enqueue(&mut self, command: InternalCommand)
        requires
            old(self).next_seq_id < usize::MAX,
        ensures
            enqueued(*old(self), *final(self), command),
            old(self).wf() ==> final(self).wf(),
    {
        self.queue.push(QueuedCommand { sequence_id: self.next_seq_id, command });
        self.next_seq_id = self.next_seq_id + 1;
    }

    pub fn extract_all(&mut self, output_dir: PathBuf, all: bool, include_decrypted: bool)
        requires
            old(self).next_seq_id < usize::MAX,
        ensures
            enqueued(*old(self), *final(self), InternalCommand::ExtractAll { output_dir, all, include_decrypted }),
            old(self).wf() ==> final(self).wf(),
    {
        self.enqueue(InternalCommand::ExtractAll { output_dir, all, include_decrypted });
    }

    pub fn build(&mut self, output: PathBuf, target: u8)
        requires
            old(self).next_seq_id < usize::MAX,
        ensures
            enqueued(*old(self), *final(self), InternalCommand::Build { output, target }),
            old(self).wf() ==> final(self).wf(),
    {
        self.enqueue(InternalCommand::Build { output, target });
    }

    pub fn update(&mut self, path: PathBuf)
        requires
            old(self).next_seq_id < usize::MAX,
        ensures
            enqueued(*old(self), *final(self), InternalCommand::Update { path }),
            old(self).wf() ==> final(self).wf(),
    {
        self.enqueue(InternalCommand::Update { path });
    }

    pub fn parse_image(&mut self, path: PathBuf, key: Option<[u8; 16]>)
        requires
            old(self).next_seq_id < usize::MAX,
        ensures
            enqueued(*old(self), *final(self), InternalCommand::ParseImage { path, key }),
            old(self).wf() ==> final(self).wf(),
    {
        self.enqueue(InternalCommand::ParseImage { path, key });
    }

    pub fn parse_key(&mut self, key: [u8; 16])
        requires
            old(self).next_seq_id < usize::MAX,
        ensures
            enqueued(*old(self), *final(self), InternalCommand::ParseKey { key }),
            old(self).wf() ==> final(self).wf(),
    {
        self.enqueue(InternalCommand::ParseKey { key });
    }

    pub fn parse_keybin(&mut self, key: Option<[u8; 16]>)
        requires
            old(self).next_seq_id < usize::MAX,
        ensures
            enqueued(*old(self), *final(self), InternalCommand::ParseKeybin { key }),
            old(self).wf() ==> final(self).wf(),
    {
        self.enqueue(InternalCommand::ParseKeybin { key });
    }

    pub fn parse_flashfs(&mut self, path: PathBuf)
        requires
            old(self).next_seq_id < usize::MAX,
        ensures
            enqueued(*old(self), *final(self), InternalCommand::ParseFlashfs { path }),
            old(self).wf() ==> final(self).wf(),
    {
        self.enqueue(InternalCommand::ParseFlashfs { path });
    }

    pub fn parse_patch(&mut self, path: PathBuf)
        requires
            old(self).next_seq_id < usize::MAX,
        ensures
            enqueued(*old(self), *final(self), InternalCommand::ParsePatch { path }),
            old(self).wf() ==> final(self).wf(),
    {
        self.enqueue(InternalCommand::ParsePatch { path });
    }

    pub fn apply_ecc(&mut self, path: PathBuf)
        requires
            old(self).next_seq_id < usize::MAX,
        ensures
            enqueued(*old(self), *final(self), InternalCommand::ApplyEcc { path }),
            old(self).wf() ==> final(self).wf(),
    {
        self.enqueue(InternalCommand::ApplyEcc { path });
    }

    pub fn apply_patch(&mut self, path: PathBuf, ptype: u8, target: Option<u8>)
        requires
            old(self).next_seq_id < usize::MAX,
        ensures
            enqueued(*old(self), *final(self), InternalCommand::ApplyPatch { path, ptype, target }),
            old(self).wf() ==> final(self).wf(),
    {
        self.enqueue(InternalCommand::ApplyPatch { path, ptype, target });
    }

    pub fn replace(&mut self, id: u8, path: PathBuf)
        requires
            old(self).next_seq_id < usize::MAX,
        ensures
            enqueued(*old(self), *final(self), InternalCommand::Replace { id, path }),
            old(self).wf() ==> final(self).wf(),
    {
        self.enqueue(InternalCommand::Replace { id, path });
    }

    pub fn list(&mut self)
        requires
            old(self).next_seq_id < usize::MAX,
        ensures
            enqueued(*old(self), *final(self), InternalCommand::List),
            old(self).wf() ==> final(self).wf(),
    {
        self.enqueue(InternalCommand::List);
    }

    pub fn delete(&mut self, id: u8)
        requires
            old(self).next_seq_id < usize::MAX,
        ensures
            enqueued(*old(self), *final(self), InternalCommand::Delete { id }),
            old(self).wf() ==> final(self).wf(),
    {
        self.enqueue(InternalCommand::Delete { id });
    }

    pub fn clear(&mut self)
        requires
            old(self).next_seq_id < usize::MAX,
        ensures
            enqueued(*old(self), *final(self), InternalCommand::Clear),
            old(self).wf() ==> final(self).wf(),
    {
        self.enqueue(InternalCommand::Clear);
    }

    pub fn compress(&mut self)
        requires
            old(self).next_seq_id < usize::MAX,
        ensures
            enqueued(*old(self), *final(self), InternalCommand::Compress),
            old(self).wf() ==> final(self).wf(),
    {
        self.enqueue(InternalCommand::Compress);
    }

    pub fn session_init(&mut self, base: Option<PathBuf>, common: Option<PathBuf>)
        requires
            old(self).next_seq_id < usize::MAX,
        ensures
            enqueued(*old(self), *final(self), InternalCommand::SessionInit { base, common }),
            old(self).wf() ==> final(self).wf(),
    {
        self.enqueue(InternalCommand::SessionInit { base, common });
    }

    pub fn session_list(&mut self)
        requires
            old(self).next_seq_id < usize::MAX,
        ensures
            enqueued(*old(self), *final(self), InternalCommand::SessionList),
            old(self).wf() ==> final(self).wf(),
    {
        self.enqueue(InternalCommand::SessionList);
    }

    pub fn session_delete(&mut self, id: u8)
        requires
            old(self).next_seq_id < usize::MAX,
        ensures
            enqueued(*old(self), *final(self), InternalCommand::SessionDelete { id }),
            old(self).wf() ==> final(self).wf(),
    {
        self.enqueue(InternalCommand::SessionDelete { id });
    }

    pub fn session_run(&mut self)
        requires
            old(self).next_seq_id < usize::MAX,
        ensures
            enqueued(*old(self), *final(self), InternalCommand::SessionRun),
            old(self).wf() ==> final(self).wf(),
    {
        self.enqueue(InternalCommand::SessionRun);
    }

    pub fn parse_ini(&mut self, path: PathBuf, target: String, ini_base: PathBuf, common: PathBuf, data: PathBuf, payloads: PathBuf, smc: PathBuf)
        requires
            old(self).next_seq_id < usize::MAX,
        ensures
            enqueued(*old(self), *final(self), InternalCommand::ParseIni { path, target, ini_base, common, data, payloads, smc }),
            old(self).wf() ==> final(self).wf(),
    {
        self.enqueue(InternalCommand::ParseIni { path, target, ini_base, common, data, payloads, smc });
    }

    pub fn extract_stfs(&mut self, path: PathBuf, target_dir: PathBuf)
        requires
            old(self).next_seq_id < usize::MAX,
        ensures
            enqueued(*old(self), *final(self), InternalCommand::ExtractStfs { path, target_dir }),
            old(self).wf() ==> final(self).wf(),
    {
        self.enqueue(InternalCommand::ExtractStfs { path, target_dir });
    }

    pub fn create_image(&mut self, layout: NandLayout)
        requires
            old(self).next_seq_id < usize::MAX,
        ensures
            enqueued(*old(self), *final(self), InternalCommand::CreateImage { layout }),
            old(self).wf() ==> final(self).wf(),
    {
        self.enqueue(InternalCommand::CreateImage { layout });
    }

    pub fn finalize_flashfs(&mut self)
        requires
            old(self).next_seq_id < usize::MAX,
        ensures
            enqueued(*old(self), *final(self), InternalCommand::FinalizeFlashfs),
            old(self).wf() ==> final(self).wf(),
    {
        self.enqueue(InternalCommand::FinalizeFlashfs);
    }

    /// Swaps a bootloader at once, bypassing the priority queue: with an
    /// active NAND, the bytes read for it (or the read error) and its type give
    /// the swap to apply to that NAND (see `SwapPlan`); the queue, the sequence
    /// counter and the rest of the session stay as they were.
    pub fn swap_bootloader(&mut self, bl_type: String, data: Result<Vec<u8>, String>, is_rebooter: bool) -> (r:
        Result<SwapPlan, SessionError>)
        ensures
            *final(self) == *old(self),
            old(self).active_nand is None ==> (r matches Err(SessionError::Other(m)) && m@
                == "No active NAND loaded. Cannot swap bootloader."@),
            old(self).active_nand is Some ==> match data {
                Err(e) => r matches Err(SessionError::Other(m)) && m@ == "Failed to read swap bootloader: "@ + e@,
                Ok(d) => match swap_target_spec(unicode_lowercase(bl_type@)) {
                    Some(t) => r matches Ok(p) && p.target == t && p.is_rebooter == is_rebooter && p.data@ == d@,
                    None => r matches Err(SessionError::Other(m)) && m@ == "Unknown bootloader type: "@ + bl_type@,
                },
            },
    {
        if self.active_nand.is_none() {
            return Err(SessionError::Other("No active NAND loaded. Cannot swap bootloader.".to_owned()));
        }
        let d = match data {
            Ok(d) => d,
            Err(e) => {
                let mut t: Vec<char> = Vec::new();
                push_text(&mut t, "Failed to read swap bootloader: ");
                push_text(&mut t, e.as_str());
                return Err(SessionError::Other(string_from_chars(t.as_slice())));
            },
        };
        match swap_target(bl_type.as_str()) {
            Some(t) => Ok(SwapPlan { target: t, is_rebooter, data: d }),
            None => {
                let mut t: Vec<char> = Vec::new();
                push_text(&mut t, "Unknown bootloader type: ");
                push_text(&mut t, bl_type.as_str());
                Err(SessionError::Other(string_from_chars(t.as_slice())))
            },
        }
    }

}

} // verus!

verus! {

/// Value of a hex digit character.
pub open spec fn hex_char_value(c: char) -> Option<u8> {
    if '0' <= c <= '9' {
        Some(((c as u32) - 0x30) as u8)
    } else if 'a' <= c <= 'f' {
        Some(((c as u32) - 0x61 + 10) as u8)
    } else if 'A' <= c <= 'F' {
        Some(((c as u32) - 0x41 + 10) as u8)
    } else {
        None
    }
}

/// Bytes of a CPU key written as 32 hex digits.
pub open spec fn cpukey_bytes(s: Seq<char>) -> Option<Seq<u8>> {
    if s.len() == 32 && forall|i: int| 0 <= i < 32 ==> (#[trigger] hex_char_value(s[i])) is Some {
        Some(Seq::new(16, |i: int| (hex_char_value(s[2 * i])->0 * 16 + hex_char_value(s[2 * i + 1])->0) as u8))
    } else {
        None
    }
}

fn hex_char(c: char) -> (r: Option<u8>)
    ensures
        r == hex_char_value(c),
{
    if '0' <= c && c <= '9' {
        Some(((c as u32) - 0x30) as u8)
    } else if 'a' <= c && c <= 'f' {
        Some(((c as u32) - 0x61 + 10) as u8)
    } else if 'A' <= c && c <= 'F' {
        Some(((c as u32) - 0x41 + 10) as u8)
    } else {
        None
    }
}

fn decode_cpukey(s: &[char]) -> (r: Option<[u8; 16]>)
    ensures
        match cpukey_bytes(s@) {
            Some(b) => r matches Some(k) && k@ == b,
            None => r is None,
        },
{
    if s.len() != 32 {
        return None;
    }
    let mut out = [0u8; 16];
    let mut i: usize = 0;
    while i < 16
        invariant
            s@.len() == 32,
            i <= 16,
            forall|q: int| 0 <= q < 2 * i ==> (#[trigger] hex_char_value(s@[q])) is Some,
            forall|q: int|
                0 <= q < i ==> out@[q] == (hex_char_value(s@[2 * q])->0 * 16 + hex_char_value(s@[2 * q + 1])->0) as u8,
        decreases 16 - i,
    {
        let hi = match hex_char(s[2 * i]) {
            Some(v) => v,
            None => return None,
        };
        let lo = match hex_char(s[2 * i + 1]) {
            Some(v) => v,
            None => return None,
        };
        out[i] = hi * 16 + lo;
        i += 1;
    }
    assert(out@ =~= Seq::new(16, |q: int| (hex_char_value(s@[2 * q])->0 * 16 + hex_char_value(s@[2 * q + 1])->0) as u8));
    Some(out)
}

impl Session {

    pub fn set_build_type(&mut self, build_type: String)
        ensures
            *final(self) == (Session { build_type: Some(build_type), ..*old(self) }),
    {
        self.build_type = Some(build_type);
    }

    pub fn set_ini_dir(&mut self, path: PathBuf)
        ensures
            *final(self) == (Session { ini_dir: Some(path), ..*old(self) }),
    {
        self.ini_dir = Some(path);
    }

    pub fn set_common_dir(&mut self, path: PathBuf)
        ensures
            *final(self) == (Session { common_dir: Some(path), ..*old(self) }),
    {
        self.common_dir = Some(path);
    }

    pub fn set_data_dir(&mut self, path: PathBuf)
        ensures
            *final(self) == (Session { data_dir: Some(path), ..*old(self) }),
    {
        self.data_dir = Some(path);
    }

    pub fn set_output(&mut self, path: PathBuf)
        ensures
            *final(self) == (Session { output_path: Some(path), ..*old(self) }),
    {
        self.output_path = Some(path);
    }

    pub fn set_ini_ext(&mut self, ext: String)
        ensures
            *final(self) == (Session { ini_ext: Some(ext), ..*old(self) }),
    {
        self.ini_ext = Some(ext);
    }

    pub fn set_bl_ext(&mut self, ext: String)
        ensures
            *final(self) == (Session { bl_ext: Some(ext), ..*old(self) }),
    {
        self.bl_ext = Some(ext);
    }

    /// Records the console type, also as the options' console type.
    pub fn set_console(&mut self, console: String)
        ensures
            final(self).console_type == Some(console),
            final(self).options.keys.ctype == Some(console),
            *final(self) == (Session {
                console_type: Some(console),
                options: OptionsIni {
                    keys: crate::gxcore::data::optini::GxBuildKeys { ctype: Some(console), ..old(self).options.keys },
                    ..old(self).options
                },
                ..*old(self)
            }),
    {
        self.console_type = Some(console.clone());
        self.options.keys.ctype = Some(console);
    }

    pub fn add_addon(&mut self, addon: String)
        ensures
            final(self).addons@ == old(self).addons@.push(addon),
            final(self).queue@ == old(self).queue@,
            final(self).next_seq_id == old(self).next_seq_id,
    {
        self.addons.push(addon);
    }

    pub fn clear_addons(&mut self)
        ensures
            final(self).addons@.len() == 0,
            final(self).queue@ == old(self).queue@,
            final(self).next_seq_id == old(self).next_seq_id,
    {
        self.addons.clear();
    }

    /// Empties the queue and the loaded image and assets, and restarts the
    /// sequence ids.
    pub fn session_clear(&mut self)
        ensures
            final(self).queue@.len() == 0,
            final(self).next_seq_id == 0,
            final(self).active_nand is None,
            final(self).pending_assets@ == Map::<String, Vec<u8>>::empty(),
            final(self).bootloader_assets@ == Map::<String, Vec<u8>>::empty(),
            final(self).security_assets@ == Map::<String, Vec<u8>>::empty(),
            final(self).flashfs_assets@ == Map::<String, Vec<u8>>::empty(),
            final(self).options == old(self).options,
            final(self).build_type == old(self).build_type,
            final(self).console_type == old(self).console_type,
            final(self).addons@ == old(self).addons@,
            final(self).build_ini_loaded == old(self).build_ini_loaded,
            final(self).wf(),
    {
        self.queue.clear();
        self.active_nand = None;
        self.pending_assets.clear();
        self.bootloader_assets.clear();
        self.security_assets.clear();
        self.flashfs_assets.clear();
        self.next_seq_id = 0;
    }

    /// Resets the queue, assets, add-ons, options and error for a fresh build;
    /// the NAND, the pending key, the FlashFS allow-list, directories,
    /// extensions, console and build type stay.
    pub fn reset_build(&mut self)
        ensures
            final(self).queue@.len() == 0,
            final(self).next_seq_id == 0,
            final(self).pending_assets@ == Map::<String, Vec<u8>>::empty(),
            final(self).bootloader_assets@ == Map::<String, Vec<u8>>::empty(),
            final(self).security_assets@ == Map::<String, Vec<u8>>::empty(),
            final(self).flashfs_assets@ == Map::<String, Vec<u8>>::empty(),
            final(self).addons@.len() == 0,
            final(self).options == empty_options(),
            final(self).last_error is None,
            !final(self).build_ini_loaded,
            final(self).active_nand == old(self).active_nand,
            final(self).build_type == old(self).build_type,
            final(self).console_type == old(self).console_type,
            final(self).ini_dir == old(self).ini_dir,
            final(self).common_dir == old(self).common_dir,
            final(self).data_dir == old(self).data_dir,
            final(self).output_path == old(self).output_path,
            final(self).pending_key == old(self).pending_key,
            final(self).flashfs_allowlist == old(self).flashfs_allowlist,
            final(self).ini_ext == old(self).ini_ext,
            final(self).bl_ext == old(self).bl_ext,
            final(self).wf(),
    {
        self.queue.clear();
        self.next_seq_id = 0;
        self.pending_assets.clear();
        self.bootloader_assets.clear();
        self.security_assets.clear();
        self.flashfs_assets.clear();
        self.addons.clear();
        self.options = OptionsIni::new();
        self.last_error = None;
        self.build_ini_loaded = false;
    }

    /// Queues a `ParseKey` for a CPU key given as 32 hex digits; any other
    /// text leaves the session unchanged.
    pub fn set_cpukey(&mut self, key: String)
        requires
            old(self).next_seq_id < usize::MAX,
        ensures
            match cpukey_bytes(key@) {
                Some(b) => exists|k: [u8; 16]| k@ == b && enqueued(*old(self), *final(self), InternalCommand::ParseKey { key: k }),
                None => *final(self) == *old(self),
            },
            old(self).wf() ==> final(self).wf(),
    {
        let chars = str_chars(key.as_str());
        match decode_cpukey(chars.as_slice()) {
            Some(k) => self.parse_key(k),
            None => {},
        }
    }

    /// Takes options read from disk, the session's own options overriding them.
    pub fn merge_disk_options(&mut self, disk: OptionsIni)
        ensures
            *final(self) == (Session { options: merged(disk, old(self).options), ..*old(self) }),
    {
        let mut user = disk;
        std::mem::swap(&mut self.options, &mut user);
        self.options.merge(user);
    }

    /// Parses an options text and merges it over the session options.
    pub fn load_options_ini(&mut self, content: &str) -> (r: Result<(), String>)
        ensures
            r is Err <==> exists|i: int|
                0 <= i < text_lines(content@).len() && is_header_line(#[trigger] text_lines(content@)[i]),
            r matches Err(m) ==> m@ == "Failed to parse options INI: "@ + "[ini] Incorrect formatting in options.ini"@,
            r is Err ==> *final(self) == *old(self),
            r is Ok ==> exists|o: OptionsIni|
                {
                    &&& forall|g: OptField|
                        #[trigger] field_value(o, g) == last_write(text_lines(content@), g, text_lines(content@).len() as int)
                    &&& o.jtag.jtag_syscall is None
                    &&& o.jtag.jtag_pairing_2bl is None
                    &&& *final(self) == (Session { options: merged(old(self).options, o), ..*old(self) })
                },
    {
        match parse_options_ini(content) {
            Ok(new_opts) => {
                self.options.merge(new_opts);
                Ok(())
            },
            Err(e) => {
                let m = e.message();
                let mut text: Vec<char> = Vec::new();
                push_text(&mut text, "Failed to parse options INI: ");
                push_text(&mut text, m.as_str());
                Err(string_from_chars(text.as_slice()))
            },
        }
    }

    /// Removes and returns the command that runs next: no remaining command
    /// runs before it.
    pub fn next_command(&mut self) -> (r: Option<QueuedCommand>)
        ensures
            old(self).queue@.len() == 0 ==> r is None && *final(self) == *old(self),
            old(self).queue@.len() > 0 ==> exists|i: int|
                0 <= i < old(self).queue@.len() && r == Some(old(self).queue@[i]) && final(self).queue@ == old(
                    self,
                ).queue@.remove(i) && forall|j: int|
                    0 <= j < final(self).queue@.len() ==> !runs_before(#[trigger] final(self).queue@[j], old(self).queue@[i]),
            final(self).next_seq_id == old(self).next_seq_id,
            same_but_queue(*old(self), *final(self)),
            old(self).wf() ==> final(self).wf(),
    {
        let n = self.queue.len();
        if n == 0 {
            return None;
        }
        let mut best: usize = 0;
        let mut i: usize = 1;
        while i < n
            invariant
                n == self.queue@.len(),
                1 <= i <= n,
                best < i,
                forall|j: int| 0 <= j < i ==> !runs_before(#[trigger] self.queue@[j], self.queue@[best as int]),
            decreases n - i,
        {
            if self.queue[i].runs_before(&self.queue[best]) {
                best = i;
            }
            i += 1;
        }
        let ghost q = self.queue@;
        let c = self.queue.remove(best);
        assert forall|j: int| 0 <= j < self.queue@.len() implies !runs_before(#[trigger] self.queue@[j], q[best as int]) by {
            if j < best {
                assert(self.queue@[j] == q[j]);
            } else {
                assert(self.queue@[j] == q[j + 1]);
            }
        }
        proof {
            if old(self).wf() {
                assert forall|a: int, b: int|
                    0 <= a < b < self.queue@.len() implies (#[trigger] self.queue@[a]).sequence_id != (
                    #[trigger] self.queue@[b]).sequence_id by {
                    let a2 = if a < best { a } else { a + 1 };
                    let b2 = if b < best { b } else { b + 1 };
                    assert(self.queue@[a] == q[a2]);
                    assert(self.queue@[b] == q[b2]);
                }
                assert forall|a: int| 0 <= a < self.queue@.len() implies (#[trigger] self.queue@[a]).sequence_id
                    < self.next_seq_id by {
                    let a2 = if a < best { a } else { a + 1 };
                    assert(self.queue@[a] == q[a2]);
                }
            }
        }
        Some(c)
    }

    /// Removes and returns the first queued command with sequence id `id`.
    pub fn take_command(&mut self, id: usize) -> (r: Option<InternalCommand>)
        ensures
            match r {
                Some(c) => exists|i: int|
                    0 <= i < old(self).queue@.len() && old(self).queue@[i].sequence_id == id && c == old(self).queue@[i].command
                        && final(self).queue@ == old(self).queue@.remove(i) && forall|k: int|
                        0 <= k < i ==> (#[trigger] old(self).queue@[k]).sequence_id != id,
                None => final(self).queue@ == old(self).queue@ && forall|k: int|
                    0 <= k < old(self).queue@.len() ==> (#[trigger] old(self).queue@[k]).sequence_id != id,
            },
            final(self).next_seq_id == old(self).next_seq_id,
            same_but_queue(*old(self), *final(self)),
            old(self).wf() ==> final(self).wf(),
    {
        let n = self.queue.len();
        let mut i: usize = 0;
        while i < n
            invariant
                n == self.queue@.len(),
                *self == *old(self),
                i <= n,
                forall|k: int| 0 <= k < i ==> (#[trigger] self.queue@[k]).sequence_id != id,
            decreases n - i,
        {
            if self.queue[i].sequence_id == id {
                let ghost q = self.queue@;
                let c = self.queue.remove(i);
                proof {
                    if old(self).wf() {
                        assert forall|a: int, b: int|
                            0 <= a < b < self.queue@.len() implies (#[trigger] self.queue@[a]).sequence_id != (
                            #[trigger] self.queue@[b]).sequence_id by {
                            let a2 = if a < i { a } else { a + 1 };
                            let b2 = if b < i { b } else { b + 1 };
                            assert(self.queue@[a] == q[a2]);
                            assert(self.queue@[b] == q[b2]);
                        }
                        assert forall|a: int| 0 <= a < self.queue@.len() implies (#[trigger] self.queue@[a]).sequence_id
                            < self.next_seq_id by {
                            let a2 = if a < i { a } else { a + 1 };
                            assert(self.queue@[a] == q[a2]);
                        }
                    }
                }
                return Some(c.command);
            }
            i += 1;
        }
        None
    }
}

/// Among commands of one priority, the one queued first runs first.
pub proof fn lemma_fifo_within_priority(a: QueuedCommand, b: QueuedCommand)
    requires
        priority(a.command) == priority(b.command),
        a.sequence_id < b.sequence_id,
    ensures
        runs_before(a, b),
        !runs_before(b, a),
{
}

/// Running before is a strict order: irreflexive and transitive.
pub proof fn lemma_runs_before_strict_order(a: QueuedCommand, b: QueuedCommand, c: QueuedCommand)
    ensures
        !runs_before(a, a),
        runs_before(a, b) && runs_before(b, c) ==> runs_before(a, c),
        runs_before(a, b) ==> !runs_before(b, a),
{
}

} // verus!
