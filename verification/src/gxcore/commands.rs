//! Command handlers that act on the session state alone.

use vstd::prelude::*;
use crate::gxcore::data::gxp::{gxp_error_text, parse_patch_binary, patch_sections_spec};
use crate::gxcore::data::xeini::{ini_error_text, BuildIniEntry, IniError, XeBuildIni};
use crate::gxcore::session::{same_but_queue, InternalCommand, QueuedCommand, Session, SessionError};
use crate::text::{push_text, str_chars, string_from_chars, to_lowercase, unicode_lowercase};
use crate::gxcore::images::blocks::{
    add_spare, add_spare_spec, append_range, detect_meta_type, detect_meta_type_spec, slice_len_ok, NandLayout,
};
use std::path::PathBuf;

verus! {

/// Placeholder for the parsed NAND image held by a session.
#[derive(Debug)]
pub struct NandSkeleton {}

/// Errors of the command layer.
#[derive(Debug)]
pub enum CommandError {
    UnknownCommand(String),
    InvalidArg(String, String),
    NoCpuKey(),
    InvalidCpuKey(String),
}

/// The path `PathBuf::join` gives for `base` extended by `name`.
pub uninterp spec fn joined_path(base: PathBuf, name: Seq<char>) -> PathBuf;

/// `PathBuf::join`: the path `base` extended by `name`; the result depends on
/// the two arguments alone (named `joined_path`; paths are opaque here).
#[verifier::external_body]
fn path_join(base: &PathBuf, name: &str) -> (r: PathBuf)
    ensures
        r == joined_path(*base, name@),
{
    base.join(name)
}

/// Checks that a patch file's bytes parse; the session is left as it was.
pub fn handle_parse_patch(session: &mut Session, data: &[u8]) -> (r: Result<(), SessionError>)
    ensures
        *final(session) == *old(session),
        r is Ok <==> patch_sections_spec(data@) is Some,
        r matches Err(e) ==> e matches SessionError::Other(m) && m@ == "Failed to parse patch binary: "@
            + gxp_error_text(crate::gxcore::data::gxp::GxpError::UnexpectedEof),
{
    match parse_patch_binary(data) {
        Ok(_) => Ok(()),
        Err(e) => {
            let m = e.message();
            let mut t: Vec<char> = Vec::new();
            push_text(&mut t, "Failed to parse patch binary: ");
            push_text(&mut t, m.as_str());
            Err(SessionError::Other(string_from_chars(t.as_slice())))
        },
    }
}

pub open spec fn names_view(v: Seq<String>) -> Seq<Seq<char>> {
    v.map_values(|s: String| s@)
}

/// Lower-cased names of the main-section files that `present` lists, in order.
pub open spec fn update_names(entries: Seq<BuildIniEntry>, present: Seq<Seq<char>>) -> Seq<Seq<char>>
    decreases entries.len(),
{
    if entries.len() == 0 {
        Seq::empty()
    } else {
        let prev = update_names(entries.drop_last(), present);
        let n = unicode_lowercase(entries.last().filename@);
        if present.contains(n) {
            prev.push(n)
        } else {
            prev
        }
    }
}

proof fn lemma_update_names_len(entries: Seq<BuildIniEntry>, present: Seq<Seq<char>>)
    ensures
        update_names(entries, present).len() <= entries.len(),
    decreases entries.len(),
{
    if entries.len() > 0 {
        lemma_update_names_len(entries.drop_last(), present);
    }
}

/// `after` is `before` with one more command queued for each of `names`, in
/// order, under the next sequence ids: an `Update` of `base` joined with the
/// name.
pub open spec fn queued_updates(before: Session, after: Session, base: PathBuf, names: Seq<Seq<char>>) -> bool {
    &&& after.queue@.len() == before.queue@.len() + names.len()
    &&& after.next_seq_id == before.next_seq_id + names.len()
    &&& forall|j: int| 0 <= j < before.queue@.len() ==> after.queue@[j] == before.queue@[j]
    &&& forall|j: int|
        0 <= j < names.len() ==> (#[trigger] after.queue@[before.queue@.len() + j]).sequence_id == before.next_seq_id
            + j && after.queue@[before.queue@.len() + j].command == InternalCommand::Update {
            path: joined_path(base, names[j]),
        }
    &&& same_but_queue(before, after)
}

pub(crate) fn contains_name(present: &Vec<String>, name: &String) -> (r: bool)
    ensures
        r == names_view(present@).contains(name@),
{
    let mut i: usize = 0;
    while i < present.len()
        invariant
            i <= present@.len(),
            forall|j: int| 0 <= j < i ==> present@[j]@ != name@,
        decreases present@.len() - i,
    {
        if present[i].eq(name) {
            assert(names_view(present@)[i as int] == name@);
            return true;
        }
        i += 1;
    }
    assert forall|j: int| 0 <= j < names_view(present@).len() implies names_view(present@)[j] != name@ by {
        assert(names_view(present@)[j] == present@[j]@);
    }
    false
}

/// Handles a parsed build INI: queues an `Update` of `data/<name>` for every
/// main-section file whose lower-cased name `present` lists (the files of
/// the data directory), in INI order; a parse error is reported.
pub fn handle_parse_ini(session: &mut Session, parsed: &Result<XeBuildIni, IniError>, data: &PathBuf, present: &Vec<String>) -> (r: Result<(), SessionError>)
    requires
        match parsed {
            Ok(ini) => old(session).next_seq_id + ini.main@.len() < usize::MAX,
            Err(_) => true,
        },
    ensures
        match parsed {
            Ok(ini) => r is Ok && queued_updates(
                *old(session),
                *final(session),
                *data,
                update_names(ini.main@, names_view(present@)),
            ),
            Err(e) => *final(session) == *old(session) && (r matches Err(SessionError::Other(m)) && m@
                == "Failed to parse INI: "@ + ini_error_text(*e)),
        },
{
    match parsed {
        Err(e) => {
            let m = e.message();
            let mut t: Vec<char> = Vec::new();
            push_text(&mut t, "Failed to parse INI: ");
            push_text(&mut t, m.as_str());
            Err(SessionError::Other(string_from_chars(t.as_slice())))
        },
        Ok(ini) => {
            let ghost s0 = *session;
            let ghost pv = names_view(present@);
            let n = ini.main.len();
            let mut i: usize = 0;
            assert(ini.main@.subrange(0, 0) =~= Seq::<BuildIniEntry>::empty());
            while i < n
                invariant
                    n == ini.main@.len(),
                    i <= n,
                    s0.next_seq_id + n < usize::MAX,
                    pv == names_view(present@),
                    update_names(ini.main@.subrange(0, i as int), pv).len() <= i,
                    queued_updates(s0, *session, *data, update_names(ini.main@.subrange(0, i as int), pv)),
                decreases n - i,
            {
                let ghost before = *session;
                let ghost k = update_names(ini.main@.subrange(0, i as int), pv).len();
                let fc = str_chars(ini.main[i].filename.as_str());
                let lower_chars = to_lowercase(fc.as_slice());
                let lower = string_from_chars(lower_chars.as_slice());
                proof {
                    let e = ini.main@.subrange(0, i + 1);
                    assert(e.drop_last() =~= ini.main@.subrange(0, i as int));
                    assert(e.last() == ini.main@[i as int]);
                }
                if contains_name(present, &lower) {
                    let path = path_join(data, lower.as_str());
                    session.enqueue(InternalCommand::Update { path });
                    proof {
                        let names1 = update_names(ini.main@.subrange(0, i + 1), pv);
                        assert(names1 == update_names(ini.main@.subrange(0, i as int), pv).push(lower@));
                        assert forall|j: int| 0 <= j < k + 1 implies (#[trigger] session.queue@[s0.queue@.len() + j]).sequence_id
                            == s0.next_seq_id + j && session.queue@[s0.queue@.len() + j].command == InternalCommand::Update {
                            path: joined_path(*data, names1[j]),
                        } by {
                            if j < k {
                                assert(session.queue@[s0.queue@.len() + j] == before.queue@[s0.queue@.len() + j]);
                            }
                        }
                        assert forall|j: int| 0 <= j < s0.queue@.len() implies session.queue@[j] == s0.queue@[j] by {
                            assert(session.queue@[j] == before.queue@[j]);
                        }
                    }
                }
                i += 1;
            }
            assert(ini.main@.subrange(0, n as int) =~= ini.main@);
            Ok(())
        },
    }
}

/// Drops the active image and every asset pool.
pub fn handle_clear(session: &mut Session)
    ensures
        final(session).active_nand is None,
        final(session).pending_assets@ == Map::<String, Vec<u8>>::empty(),
        final(session).bootloader_assets@ == Map::<String, Vec<u8>>::empty(),
        final(session).security_assets@ == Map::<String, Vec<u8>>::empty(),
        final(session).flashfs_assets@ == Map::<String, Vec<u8>>::empty(),
        final(session).queue@ == old(session).queue@,
        final(session).next_seq_id == old(session).next_seq_id,
        final(session).options == old(session).options,
        final(session).pending_key == old(session).pending_key,
        final(session).flashfs_allowlist == old(session).flashfs_allowlist,
        final(session).last_error == old(session).last_error,
        final(session).build_type == old(session).build_type,
        final(session).console_type == old(session).console_type,
        final(session).ini_dir == old(session).ini_dir,
        final(session).common_dir == old(session).common_dir,
        final(session).data_dir == old(session).data_dir,
        final(session).output_path == old(session).output_path,
        final(session).ini_ext == old(session).ini_ext,
        final(session).bl_ext == old(session).bl_ext,
        final(session).addons == old(session).addons,
        final(session).build_ini_loaded == old(session).build_ini_loaded,
{
    session.active_nand = None;
    session.pending_assets.clear();
    session.bootloader_assets.clear();
    session.security_assets.clear();
    session.flashfs_assets.clear();
}

/// Buffers a CPU key for the image.
pub fn handle_parse_key(session: &mut Session, key: [u8; 16])
    ensures
        *final(session) == (Session { pending_key: Some(key), ..*old(session) }),
{
    session.pending_key = Some(key);
}

/// Buffers the CPU key read from a key file, when there is one.
pub fn handle_parse_keybin(session: &mut Session, key: Option<[u8; 16]>)
    ensures
        key is Some ==> *final(session) == (Session { pending_key: key, ..*old(session) }),
        key is None ==> *final(session) == *old(session),
{
    if let Some(k) = key {
        session.pending_key = Some(k);
    }
}

/// Compression is not implemented: nothing changes.
pub fn handle_compress() {
}

/// Session initialisation only reports its directories: nothing changes.
pub fn handle_session_init(base: Option<PathBuf>, common: Option<PathBuf>) {
}

pub open spec fn keeps_id(id: u8) -> spec_fn(QueuedCommand) -> bool {
    |q: QueuedCommand| q.sequence_id != id as usize
}

/// Removes every queued command with sequence id `id`.
pub fn handle_session_delete(session: &mut Session, id: u8)
    ensures
        final(session).queue@ == old(session).queue@.filter(keeps_id(id)),
        final(session).next_seq_id == old(session).next_seq_id,
        crate::gxcore::session::same_but_queue(*old(session), *final(session)),
        old(session).wf() ==> final(session).wf(),
{
    let ghost orig = session.queue@;
    let mut src: Vec<QueuedCommand> = Vec::new();
    std::mem::swap(&mut src, &mut session.queue);
    let n = src.len();
    let mut k: usize = 0;
    assert(orig.subrange(0, 0) =~= Seq::<QueuedCommand>::empty());
    proof {
        reveal(Seq::filter);
    }
    assert(orig.subrange(0, n as int) =~= orig);
    while k < n
        invariant
            n == orig.len(),
            k <= n,
            src@ == orig.subrange(k as int, n as int),
            session.queue@ == orig.subrange(0, k as int).filter(keeps_id(id)),
            session.next_seq_id == old(session).next_seq_id,
            crate::gxcore::session::same_but_queue(*old(session), *session),
            orig == old(session).queue@,
            forall|q: int|
                0 <= q < session.queue@.len() ==> exists|j: int|
                    0 <= j < k && #[trigger] session.queue@[q] == orig[j],
            old(session).wf() ==> session.wf(),
        decreases n - k,
    {
        let q = src.remove(0);
        proof {
            reveal(Seq::filter);
            assert(orig.subrange(0, k as int + 1).drop_last() =~= orig.subrange(0, k as int));
            assert(orig.subrange(0, k as int + 1).last() == q);
        }
        if q.sequence_id != id as usize {
            let ghost before = session.queue@;
            session.queue.push(q);
            proof {
                assert forall|a: int| 0 <= a < session.queue@.len() implies exists|j: int|
                    0 <= j < k + 1 && #[trigger] session.queue@[a] == orig[j] by {
                    if a < before.len() {
                        assert(session.queue@[a] == before[a]);
                    } else {
                        assert(session.queue@[a] == orig[k as int]);
                    }
                }
                if old(session).wf() {
                    assert forall|a: int, b: int|
                        0 <= a < b < session.queue@.len() implies (#[trigger] session.queue@[a]).sequence_id != (
                        #[trigger] session.queue@[b]).sequence_id by {
                        if b == before.len() {
                            let j = choose|j: int| 0 <= j < k && #[trigger] before[a] == orig[j];
                            assert(session.queue@[a] == before[a]);
                            assert(orig[j].sequence_id != orig[k as int].sequence_id);
                        } else {
                            assert(session.queue@[a] == before[a] && session.queue@[b] == before[b]);
                        }
                    }
                    assert forall|a: int| 0 <= a < session.queue@.len() implies (#[trigger] session.queue@[a]).sequence_id
                        < session.next_seq_id by {
                        if a < before.len() {
                            assert(session.queue@[a] == before[a]);
                        }
                    }
                }
            }
        } else {
            proof {
                assert forall|a: int| 0 <= a < session.queue@.len() implies exists|j: int|
                    0 <= j < k + 1 && #[trigger] session.queue@[a] == orig[j] by {
                    let j = choose|j: int| 0 <= j < k && #[trigger] session.queue@[a] == orig[j];
                }
            }
        }
        proof {
            assert(src@ =~= orig.subrange(k as int + 1, n as int));
        }
        k += 1;
    }
}


/// The CPU key a build is made with: the one the session buffered; without
/// one the build is refused.
pub fn build_key(session: &Session) -> (r: Result<[u8; 16], SessionError>)
    ensures
        session.pending_key matches Some(k) ==> r == Ok::<[u8; 16], SessionError>(k),
        session.pending_key is None ==> (r matches Err(SessionError::Other(m)) && m@
            == "No CPU key available for build"@),
{
    match session.pending_key {
        Some(k) => Ok(k),
        None => Err(SessionError::Other("No CPU key available for build".to_owned())),
    }
}

/// The image a build writes for the clean bytes the builder produced: with a
/// spare area and ECC after every page (block numbers from 0, no FlashFS
/// metadata, no JTAG syscall, the spare format detected from the clean bytes)
/// unless `noecc` is set.
pub fn build_output_image(clean: &[u8], layout: NandLayout, noecc: Option<bool>) -> (r: Vec<u8>)
    requires
        slice_len_ok(clean@.len() as int),
    ensures
        noecc == Some(true) ==> r@ == clean@,
        noecc != Some(true) ==> r@ == add_spare_spec(
            clean@,
            layout,
            detect_meta_type_spec(clean@, layout),
            0,
            None,
            None,
        ),
{
    if noecc == Some(true) {
        let mut out: Vec<u8> = Vec::new();
        append_range(&mut out, clean, 0, clean.len());
        assert(clean@.subrange(0, clean@.len() as int) =~= clean@);
        out
    } else {
        let meta = detect_meta_type(clean, layout);
        add_spare(clean, layout, meta, 0, None, None)
    }
}

/// Name of the build INI for a build type: `_<type>[_<ext>].ini`.
pub open spec fn build_ini_name(build_type: Seq<char>, ini_ext: Option<String>) -> Seq<char> {
    "_"@ + build_type + match ini_ext {
        Some(e) => "_"@ + e@,
        None => Seq::empty(),
    } + ".ini"@
}

/// Bootloader section of the build INI: the console, then `_<ext>`.
pub open spec fn build_section_name(console: Seq<char>, bl_ext: Option<String>) -> Seq<char> {
    console + match bl_ext {
        Some(e) => "_"@ + e@,
        None => Seq::empty(),
    }
}

/// What a build reads first: the build INI's file name and its bootloader
/// section, from the session's build type, console and extensions; a build
/// needs both a build type and a console.
pub fn prepare_build_target(session: &Session) -> (r: Result<(String, String), SessionError>)
    ensures
        match (session.build_type, session.console_type) {
            (None, _) => r matches Err(SessionError::BuildTypeNotSet),
            (Some(_), None) => r matches Err(SessionError::ConsoleTypeNotSet),
            (Some(b), Some(c)) => (r matches Ok(t) && t.0@ == build_ini_name(b@, session.ini_ext) && t.1@
                == build_section_name(c@, session.bl_ext)),
        },
{
    let build_type = match &session.build_type {
        Some(b) => b,
        None => return Err(SessionError::BuildTypeNotSet),
    };
    let console = match &session.console_type {
        Some(c) => c,
        None => return Err(SessionError::ConsoleTypeNotSet),
    };
    let mut file: Vec<char> = Vec::new();
    push_text(&mut file, "_");
    push_text(&mut file, build_type.as_str());
    if let Some(e) = &session.ini_ext {
        push_text(&mut file, "_");
        push_text(&mut file, e.as_str());
    }
    push_text(&mut file, ".ini");
    let mut section: Vec<char> = Vec::new();
    push_text(&mut section, console.as_str());
    if let Some(e) = &session.bl_ext {
        push_text(&mut section, "_");
        push_text(&mut section, e.as_str());
    }
    proof {
        assert(file@ =~= build_ini_name(build_type@, session.ini_ext));
        assert(section@ =~= build_section_name(console@, session.bl_ext));
    }
    Ok((string_from_chars(file.as_slice()), string_from_chars(section.as_slice())))
}

} // verus!
