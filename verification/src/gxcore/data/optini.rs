//! `options.ini`: `key = value` lines setting build, JTAG, SMC and keyvault
//! options; later settings override earlier ones.

use vstd::prelude::*;
use crate::text::{
    eq_ignore_ascii_case, find_from, find_in, range_eq, range_eq_ignore_ascii_case, split, str_chars,
    string_from_chars, sub_chars, to_lowercase, trim, trim_end_char, trim_end_char_range, trim_range,
    unicode_lowercase,
};

verus! {
#[derive(Debug, Clone, Copy, PartialEq, Eq, Structural)]
pub enum OptionsIniError {
    /// A `[section]` header: options files hold bare `key = value` lines.
    BadOptionsFormat,
}

impl OptionsIniError {
    /// Text of the error.
    pub fn message(&self) -> (r: String)
        ensures
            r@ == "[ini] Incorrect formatting in options.ini"@,
    {
        "[ini] Incorrect formatting in options.ini".to_owned()
    }
}

#[derive(Debug, Clone)]
pub struct GxBuildKeys {
    pub ctype: Option<String>,
    pub _1blkey: Option<String>,
    pub cpukey: Option<String>,
    pub cfldv: Option<String>,
}

#[derive(Debug, Clone)]
pub struct CoreOptions {
    pub noenter: Option<bool>,
    pub nolog: Option<bool>,
    pub noinfo: Option<bool>,
    pub gxunsafe: Option<bool>,
    pub verbose: Option<bool>,
}

#[derive(Debug, Clone)]
pub struct CoreBuilderOptions {
    pub nosecurity: Option<bool>,
    pub nosusecurity: Option<bool>,
    pub noremap: Option<bool>,
    pub nandmu: Option<bool>,
    pub nochainpatch: Option<bool>,
    pub nofcrt: Option<bool>,
    pub dualpatchslots: Option<bool>,
    pub mfg: Option<bool>,
    pub xsb: Option<bool>,
    pub nomobile: Option<bool>,
    pub full_image: Option<bool>,
    pub noecc: Option<bool>,
}

#[derive(Debug, Clone)]
pub struct BuilderOptions {
    pub gxunsafe: Option<bool>,
    pub verbose: Option<bool>,
    pub noflashfs: Option<bool>,
    pub xellbutton: Option<String>,
    pub xellbutton2: Option<String>,
    pub noecdremap: Option<bool>,
    pub smcnocheck: Option<bool>,
}

#[derive(Debug, Clone)]
pub struct JtagOptions {
    pub jtag_syscall: Option<u16>,
    pub jtag_pairing_2bl: Option<[u8; 3]>,
    pub cygnos: Option<bool>,
    pub demon: Option<bool>,
    pub smcnoeject: Option<bool>,
    pub smcnoblink: Option<bool>,
    pub patchsmc: Option<bool>,
    pub olddvd: Option<bool>,
    pub nodvd: Option<bool>,
    pub dualboot: Option<bool>,
}

#[derive(Debug, Clone)]
pub struct SmcConfigOptions {
    pub cputemp: Option<String>,
    pub gputemp: Option<String>,
    pub edramtemp: Option<String>,
    pub overcputemp: Option<String>,
    pub overgputemp: Option<String>,
    pub overedramtemp: Option<String>,
    pub cpufan: Option<String>,
    pub gpufan: Option<String>,
}

#[derive(Debug, Clone)]
pub struct KeyvaultOptions {
    pub avregion: Option<String>,
    pub gameregion: Option<String>,
    pub dvdregion: Option<String>,
    pub macid: Option<String>,
    pub serial: Option<String>,
    pub consoleid: Option<String>,
    pub osig: Option<String>,
    pub mfdate: Option<String>,
    pub dvdkey: Option<String>,
}

#[derive(Debug, Clone)]
pub struct OptionsIni {
    pub keys: GxBuildKeys,
    pub core: CoreOptions,
    pub core_builder: CoreBuilderOptions,
    pub builder: BuilderOptions,
    pub jtag: JtagOptions,
    pub smc_config: SmcConfigOptions,
    pub keyvault: KeyvaultOptions,
}

/// The flag and text options (the JTAG syscall and pairing are set elsewhere).
#[derive(Debug, Clone, Copy, PartialEq, Eq, Structural)]
pub enum OptField {
    KeysCtype,
    KeysKey1blkey,
    KeysCpukey,
    KeysCfldv,
    CoreNoenter,
    CoreNolog,
    CoreNoinfo,
    CoreGxunsafe,
    CoreVerbose,
    CoreBuilderNosecurity,
    CoreBuilderNosusecurity,
    CoreBuilderNoremap,
    CoreBuilderNandmu,
    CoreBuilderNochainpatch,
    CoreBuilderNofcrt,
    CoreBuilderDualpatchslots,
    CoreBuilderMfg,
    CoreBuilderXsb,
    CoreBuilderNomobile,
    CoreBuilderFullImage,
    CoreBuilderNoecc,
    BuilderGxunsafe,
    BuilderVerbose,
    BuilderNoflashfs,
    BuilderXellbutton,
    BuilderXellbutton2,
    BuilderNoecdremap,
    BuilderSmcnocheck,
    JtagCygnos,
    JtagDemon,
    JtagSmcnoeject,
    JtagSmcnoblink,
    JtagPatchsmc,
    JtagOlddvd,
    JtagNodvd,
    JtagDualboot,
    SmcCputemp,
    SmcGputemp,
    SmcEdramtemp,
    SmcOvercputemp,
    SmcOvergputemp,
    SmcOveredramtemp,
    SmcCpufan,
    SmcGpufan,
    KeyvaultAvregion,
    KeyvaultGameregion,
    KeyvaultDvdregion,
    KeyvaultMacid,
    KeyvaultSerial,
    KeyvaultConsoleid,
    KeyvaultOsig,
    KeyvaultMfdate,
    KeyvaultDvdkey,
}

pub open spec fn is_text_field(f: OptField) -> bool {
    match f {
        OptField::KeysCtype | OptField::KeysKey1blkey | OptField::KeysCpukey | OptField::KeysCfldv | OptField::BuilderXellbutton | OptField::BuilderXellbutton2 | OptField::SmcCputemp | OptField::SmcGputemp | OptField::SmcEdramtemp | OptField::SmcOvercputemp | OptField::SmcOvergputemp | OptField::SmcOveredramtemp | OptField::SmcCpufan | OptField::SmcGpufan | OptField::KeyvaultAvregion | OptField::KeyvaultGameregion | OptField::KeyvaultDvdregion | OptField::KeyvaultMacid | OptField::KeyvaultSerial | OptField::KeyvaultConsoleid | OptField::KeyvaultOsig | OptField::KeyvaultMfdate | OptField::KeyvaultDvdkey => true,
        _ => false,
    }
}

/// Options with nothing set.
pub open spec fn empty_options() -> OptionsIni {
    OptionsIni {
        keys: GxBuildKeys {
            ctype: None,
            _1blkey: None,
            cpukey: None,
            cfldv: None,
        },
        core: CoreOptions {
            noenter: None,
            nolog: None,
            noinfo: None,
            gxunsafe: None,
            verbose: None,
        },
        core_builder: CoreBuilderOptions {
            nosecurity: None,
            nosusecurity: None,
            noremap: None,
            nandmu: None,
            nochainpatch: None,
            nofcrt: None,
            dualpatchslots: None,
            mfg: None,
            xsb: None,
            nomobile: None,
            full_image: None,
            noecc: None,
        },
        builder: BuilderOptions {
            gxunsafe: None,
            verbose: None,
            noflashfs: None,
            xellbutton: None,
            xellbutton2: None,
            noecdremap: None,
            smcnocheck: None,
        },
        jtag: JtagOptions {
            jtag_syscall: None,
            jtag_pairing_2bl: None,
            cygnos: None,
            demon: None,
            smcnoeject: None,
            smcnoblink: None,
            patchsmc: None,
            olddvd: None,
            nodvd: None,
            dualboot: None,
        },
        smc_config: SmcConfigOptions {
            cputemp: None,
            gputemp: None,
            edramtemp: None,
            overcputemp: None,
            overgputemp: None,
            overedramtemp: None,
            cpufan: None,
            gpufan: None,
        },
        keyvault: KeyvaultOptions {
            avregion: None,
            gameregion: None,
            dvdregion: None,
            macid: None,
            serial: None,
            consoleid: None,
            osig: None,
            mfdate: None,
            dvdkey: None,
        },
    }
}

/// The newer setting when there is one, else the older.
pub open spec fn pick<T>(newer: Option<T>, older: Option<T>) -> Option<T> {
    if newer is Some {
        newer
    } else {
        older
    }
}

pub open spec fn merge_keys(a: GxBuildKeys, b: GxBuildKeys) -> GxBuildKeys {
    GxBuildKeys {
        ctype: pick(b.ctype, a.ctype),
        _1blkey: pick(b._1blkey, a._1blkey),
        cpukey: pick(b.cpukey, a.cpukey),
        cfldv: pick(b.cfldv, a.cfldv),
    }
}

proof fn lemma_merge_keys_assoc(a: GxBuildKeys, b: GxBuildKeys, c: GxBuildKeys)
    ensures
        merge_keys(merge_keys(a, b), c) == merge_keys(a, merge_keys(b, c)),
{
}

pub open spec fn merge_core(a: CoreOptions, b: CoreOptions) -> CoreOptions {
    CoreOptions {
        noenter: pick(b.noenter, a.noenter),
        nolog: pick(b.nolog, a.nolog),
        noinfo: pick(b.noinfo, a.noinfo),
        gxunsafe: pick(b.gxunsafe, a.gxunsafe),
        verbose: pick(b.verbose, a.verbose),
    }
}

proof fn lemma_merge_core_assoc(a: CoreOptions, b: CoreOptions, c: CoreOptions)
    ensures
        merge_core(merge_core(a, b), c) == merge_core(a, merge_core(b, c)),
{
}

pub open spec fn merge_core_builder(a: CoreBuilderOptions, b: CoreBuilderOptions) -> CoreBuilderOptions {
    CoreBuilderOptions {
        nosecurity: pick(b.nosecurity, a.nosecurity),
        nosusecurity: pick(b.nosusecurity, a.nosusecurity),
        noremap: pick(b.noremap, a.noremap),
        nandmu: pick(b.nandmu, a.nandmu),
        nochainpatch: pick(b.nochainpatch, a.nochainpatch),
        nofcrt: pick(b.nofcrt, a.nofcrt),
        dualpatchslots: pick(b.dualpatchslots, a.dualpatchslots),
        mfg: pick(b.mfg, a.mfg),
        xsb: pick(b.xsb, a.xsb),
        nomobile: pick(b.nomobile, a.nomobile),
        full_image: pick(b.full_image, a.full_image),
        noecc: pick(b.noecc, a.noecc),
    }
}

proof fn lemma_merge_core_builder_assoc(a: CoreBuilderOptions, b: CoreBuilderOptions, c: CoreBuilderOptions)
    ensures
        merge_core_builder(merge_core_builder(a, b), c) == merge_core_builder(a, merge_core_builder(b, c)),
{
}

pub open spec fn merge_builder(a: BuilderOptions, b: BuilderOptions) -> BuilderOptions {
    BuilderOptions {
        gxunsafe: pick(b.gxunsafe, a.gxunsafe),
        verbose: pick(b.verbose, a.verbose),
        noflashfs: pick(b.noflashfs, a.noflashfs),
        xellbutton: pick(b.xellbutton, a.xellbutton),
        xellbutton2: pick(b.xellbutton2, a.xellbutton2),
        noecdremap: pick(b.noecdremap, a.noecdremap),
        smcnocheck: pick(b.smcnocheck, a.smcnocheck),
    }
}

proof fn lemma_merge_builder_assoc(a: BuilderOptions, b: BuilderOptions, c: BuilderOptions)
    ensures
        merge_builder(merge_builder(a, b), c) == merge_builder(a, merge_builder(b, c)),
{
}

pub open spec fn merge_jtag(a: JtagOptions, b: JtagOptions) -> JtagOptions {
    JtagOptions {
        jtag_syscall: pick(b.jtag_syscall, a.jtag_syscall),
        jtag_pairing_2bl: pick(b.jtag_pairing_2bl, a.jtag_pairing_2bl),
        cygnos: pick(b.cygnos, a.cygnos),
        demon: pick(b.demon, a.demon),
        smcnoeject: pick(b.smcnoeject, a.smcnoeject),
        smcnoblink: pick(b.smcnoblink, a.smcnoblink),
        patchsmc: pick(b.patchsmc, a.patchsmc),
        olddvd: pick(b.olddvd, a.olddvd),
        nodvd: pick(b.nodvd, a.nodvd),
        dualboot: pick(b.dualboot, a.dualboot),
    }
}

proof fn lemma_merge_jtag_assoc(a: JtagOptions, b: JtagOptions, c: JtagOptions)
    ensures
        merge_jtag(merge_jtag(a, b), c) == merge_jtag(a, merge_jtag(b, c)),
{
}

pub open spec fn merge_smc_config(a: SmcConfigOptions, b: SmcConfigOptions) -> SmcConfigOptions {
    SmcConfigOptions {
        cputemp: pick(b.cputemp, a.cputemp),
        gputemp: pick(b.gputemp, a.gputemp),
        edramtemp: pick(b.edramtemp, a.edramtemp),
        overcputemp: pick(b.overcputemp, a.overcputemp),
        overgputemp: pick(b.overgputemp, a.overgputemp),
        overedramtemp: pick(b.overedramtemp, a.overedramtemp),
        cpufan: pick(b.cpufan, a.cpufan),
        gpufan: pick(b.gpufan, a.gpufan),
    }
}

proof fn lemma_merge_smc_config_assoc(a: SmcConfigOptions, b: SmcConfigOptions, c: SmcConfigOptions)
    ensures
        merge_smc_config(merge_smc_config(a, b), c) == merge_smc_config(a, merge_smc_config(b, c)),
{
}

pub open spec fn merge_keyvault(a: KeyvaultOptions, b: KeyvaultOptions) -> KeyvaultOptions {
    KeyvaultOptions {
        avregion: pick(b.avregion, a.avregion),
        gameregion: pick(b.gameregion, a.gameregion),
        dvdregion: pick(b.dvdregion, a.dvdregion),
        macid: pick(b.macid, a.macid),
        serial: pick(b.serial, a.serial),
        consoleid: pick(b.consoleid, a.consoleid),
        osig: pick(b.osig, a.osig),
        mfdate: pick(b.mfdate, a.mfdate),
        dvdkey: pick(b.dvdkey, a.dvdkey),
    }
}

proof fn lemma_merge_keyvault_assoc(a: KeyvaultOptions, b: KeyvaultOptions, c: KeyvaultOptions)
    ensures
        merge_keyvault(merge_keyvault(a, b), c) == merge_keyvault(a, merge_keyvault(b, c)),
{
}

/// `a` overridden by every option that `b` sets.
pub open spec fn merged(a: OptionsIni, b: OptionsIni) -> OptionsIni {
    OptionsIni {
        keys: merge_keys(a.keys, b.keys),
        core: merge_core(a.core, b.core),
        core_builder: merge_core_builder(a.core_builder, b.core_builder),
        builder: merge_builder(a.builder, b.builder),
        jtag: merge_jtag(a.jtag, b.jtag),
        smc_config: merge_smc_config(a.smc_config, b.smc_config),
        keyvault: merge_keyvault(a.keyvault, b.keyvault),
    }
}

pub open spec fn text_view(o: Option<String>) -> Option<Seq<char>> {
    match o {
        Some(s) => Some(s@),
        None => None,
    }
}

/// Value of one option: `(flag, text)`, the unused component `None`.
pub open spec fn field_value(o: OptionsIni, f: OptField) -> (Option<bool>, Option<Seq<char>>) {
    match f {
        OptField::KeysCtype => (None, text_view(o.keys.ctype)),
        OptField::KeysKey1blkey => (None, text_view(o.keys._1blkey)),
        OptField::KeysCpukey => (None, text_view(o.keys.cpukey)),
        OptField::KeysCfldv => (None, text_view(o.keys.cfldv)),
        OptField::CoreNoenter => (o.core.noenter, None),
        OptField::CoreNolog => (o.core.nolog, None),
        OptField::CoreNoinfo => (o.core.noinfo, None),
        OptField::CoreGxunsafe => (o.core.gxunsafe, None),
        OptField::CoreVerbose => (o.core.verbose, None),
        OptField::CoreBuilderNosecurity => (o.core_builder.nosecurity, None),
        OptField::CoreBuilderNosusecurity => (o.core_builder.nosusecurity, None),
        OptField::CoreBuilderNoremap => (o.core_builder.noremap, None),
        OptField::CoreBuilderNandmu => (o.core_builder.nandmu, None),
        OptField::CoreBuilderNochainpatch => (o.core_builder.nochainpatch, None),
        OptField::CoreBuilderNofcrt => (o.core_builder.nofcrt, None),
        OptField::CoreBuilderDualpatchslots => (o.core_builder.dualpatchslots, None),
        OptField::CoreBuilderMfg => (o.core_builder.mfg, None),
        OptField::CoreBuilderXsb => (o.core_builder.xsb, None),
        OptField::CoreBuilderNomobile => (o.core_builder.nomobile, None),
        OptField::CoreBuilderFullImage => (o.core_builder.full_image, None),
        OptField::CoreBuilderNoecc => (o.core_builder.noecc, None),
        OptField::BuilderGxunsafe => (o.builder.gxunsafe, None),
        OptField::BuilderVerbose => (o.builder.verbose, None),
        OptField::BuilderNoflashfs => (o.builder.noflashfs, None),
        OptField::BuilderXellbutton => (None, text_view(o.builder.xellbutton)),
        OptField::BuilderXellbutton2 => (None, text_view(o.builder.xellbutton2)),
        OptField::BuilderNoecdremap => (o.builder.noecdremap, None),
        OptField::BuilderSmcnocheck => (o.builder.smcnocheck, None),
        OptField::JtagCygnos => (o.jtag.cygnos, None),
        OptField::JtagDemon => (o.jtag.demon, None),
        OptField::JtagSmcnoeject => (o.jtag.smcnoeject, None),
        OptField::JtagSmcnoblink => (o.jtag.smcnoblink, None),
        OptField::JtagPatchsmc => (o.jtag.patchsmc, None),
        OptField::JtagOlddvd => (o.jtag.olddvd, None),
        OptField::JtagNodvd => (o.jtag.nodvd, None),
        OptField::JtagDualboot => (o.jtag.dualboot, None),
        OptField::SmcCputemp => (None, text_view(o.smc_config.cputemp)),
        OptField::SmcGputemp => (None, text_view(o.smc_config.gputemp)),
        OptField::SmcEdramtemp => (None, text_view(o.smc_config.edramtemp)),
        OptField::SmcOvercputemp => (None, text_view(o.smc_config.overcputemp)),
        OptField::SmcOvergputemp => (None, text_view(o.smc_config.overgputemp)),
        OptField::SmcOveredramtemp => (None, text_view(o.smc_config.overedramtemp)),
        OptField::SmcCpufan => (None, text_view(o.smc_config.cpufan)),
        OptField::SmcGpufan => (None, text_view(o.smc_config.gpufan)),
        OptField::KeyvaultAvregion => (None, text_view(o.keyvault.avregion)),
        OptField::KeyvaultGameregion => (None, text_view(o.keyvault.gameregion)),
        OptField::KeyvaultDvdregion => (None, text_view(o.keyvault.dvdregion)),
        OptField::KeyvaultMacid => (None, text_view(o.keyvault.macid)),
        OptField::KeyvaultSerial => (None, text_view(o.keyvault.serial)),
        OptField::KeyvaultConsoleid => (None, text_view(o.keyvault.consoleid)),
        OptField::KeyvaultOsig => (None, text_view(o.keyvault.osig)),
        OptField::KeyvaultMfdate => (None, text_view(o.keyvault.mfdate)),
        OptField::KeyvaultDvdkey => (None, text_view(o.keyvault.dvdkey)),
    }
}

/// Value an assignment of text `v` gives field `f`: the text itself, or for a
/// flag whether the text is `true` in any ASCII case.
pub open spec fn written_value(f: OptField, v: Seq<char>) -> (Option<bool>, Option<Seq<char>>) {
    if is_text_field(f) {
        (None, Some(v))
    } else {
        (Some(eq_ignore_ascii_case(v, "true"@)), None)
    }
}

/// Options a `set_option` key (lower-cased) sets.
pub open spec fn set_option_targets(k: Seq<char>) -> Seq<OptField> {
    if k == "region"@ || k == "avregion"@ {
        seq![OptField::KeyvaultAvregion]
    } else if k == "gameregion"@ {
        seq![OptField::KeyvaultGameregion]
    } else if k == "dvdregion"@ {
        seq![OptField::KeyvaultDvdregion]
    } else if k == "unsafe"@ || k == "gxunsafe"@ {
        seq![OptField::CoreGxunsafe, OptField::BuilderGxunsafe]
    } else if k == "verbose"@ {
        seq![OptField::CoreVerbose, OptField::BuilderVerbose]
    } else if k == "nomobile"@ {
        seq![OptField::CoreBuilderNomobile]
    } else if k == "noremap"@ {
        seq![OptField::CoreBuilderNoremap]
    } else if k == "nandmu"@ {
        seq![OptField::CoreBuilderNandmu]
    } else if k == "cputemp"@ {
        seq![OptField::SmcCputemp]
    } else if k == "gputemp"@ {
        seq![OptField::SmcGputemp]
    } else if k == "edramtemp"@ {
        seq![OptField::SmcEdramtemp]
    } else if k == "overcputemp"@ {
        seq![OptField::SmcOvercputemp]
    } else if k == "overgputemp"@ {
        seq![OptField::SmcOvergputemp]
    } else if k == "overedramtemp"@ {
        seq![OptField::SmcOveredramtemp]
    } else if k == "cpufan"@ {
        seq![OptField::SmcCpufan]
    } else if k == "gpufan"@ {
        seq![OptField::SmcGpufan]
    } else if k == "macid"@ || k == "mac"@ {
        seq![OptField::KeyvaultMacid]
    } else if k == "dvdkey"@ {
        seq![OptField::KeyvaultDvdkey]
    } else if k == "cfldv"@ {
        seq![OptField::KeysCfldv]
    } else if k == "serial"@ {
        seq![OptField::KeyvaultSerial]
    } else if k == "consoleid"@ {
        seq![OptField::KeyvaultConsoleid]
    } else if k == "osig"@ {
        seq![OptField::KeyvaultOsig]
    } else if k == "mfdate"@ {
        seq![OptField::KeyvaultMfdate]
    } else if k == "nofcrt"@ {
        seq![OptField::CoreBuilderNofcrt]
    } else if k == "xellbutton"@ {
        seq![OptField::BuilderXellbutton]
    } else if k == "xellbutton2"@ {
        seq![OptField::BuilderXellbutton2]
    } else if k == "cygnos"@ {
        seq![OptField::JtagCygnos]
    } else if k == "demon"@ {
        seq![OptField::JtagDemon]
    } else if k == "smcnoeject"@ {
        seq![OptField::JtagSmcnoeject]
    } else if k == "smcnoblink"@ {
        seq![OptField::JtagSmcnoblink]
    } else if k == "patchsmc"@ {
        seq![OptField::JtagPatchsmc]
    } else if k == "olddvd"@ {
        seq![OptField::JtagOlddvd]
    } else if k == "nodvd"@ {
        seq![OptField::JtagNodvd]
    } else if k == "dualboot"@ {
        seq![OptField::JtagDualboot]
    } else if k == "dualpatchslots"@ {
        seq![OptField::CoreBuilderDualpatchslots]
    } else if k == "nolog"@ {
        seq![OptField::CoreNolog]
    } else if k == "noinfo"@ {
        seq![OptField::CoreNoinfo]
    } else if k == "noenter"@ {
        seq![OptField::CoreNoenter]
    } else if k == "noecc"@ {
        seq![OptField::CoreBuilderNoecc]
    } else if k == "noecdremap"@ {
        seq![OptField::BuilderNoecdremap]
    } else if k == "smcnocheck"@ {
        seq![OptField::BuilderSmcnocheck]
    } else if k == "nosecurity"@ {
        seq![OptField::CoreBuilderNosecurity]
    } else if k == "nosusecurity"@ {
        seq![OptField::CoreBuilderNosusecurity]
    } else if k == "nochainpatch"@ {
        seq![OptField::CoreBuilderNochainpatch]
    } else if k == "mfg"@ {
        seq![OptField::CoreBuilderMfg]
    } else if k == "xsb"@ {
        seq![OptField::CoreBuilderXsb]
    } else if k == "full_image"@ {
        seq![OptField::CoreBuilderFullImage]
    } else {
        Seq::empty()
    }
}

/// Options an `options.ini` key (lower-cased) sets.
pub open spec fn ini_option_targets(k: Seq<char>) -> Seq<OptField> {
    if k == "type"@ {
        seq![OptField::KeysCtype]
    } else if k == "1blkey"@ {
        seq![OptField::KeysKey1blkey]
    } else if k == "cpukey"@ {
        seq![OptField::KeysCpukey]
    } else if k == "cfldv"@ {
        seq![OptField::KeysCfldv]
    } else if k == "dvdkey"@ {
        seq![OptField::KeyvaultDvdkey]
    } else if k == "xellbutton"@ {
        seq![OptField::BuilderXellbutton]
    } else if k == "xellbutton2"@ {
        seq![OptField::BuilderXellbutton2]
    } else if k == "cygnos"@ {
        seq![OptField::JtagCygnos]
    } else if k == "demon"@ {
        seq![OptField::JtagDemon]
    } else if k == "smcnoeject"@ {
        seq![OptField::JtagSmcnoeject]
    } else if k == "smcnoblink"@ {
        seq![OptField::JtagSmcnoblink]
    } else if k == "patchsmc"@ {
        seq![OptField::JtagPatchsmc]
    } else if k == "olddvd"@ {
        seq![OptField::JtagOlddvd]
    } else if k == "nodvd"@ {
        seq![OptField::JtagNodvd]
    } else if k == "dualboot"@ {
        seq![OptField::JtagDualboot]
    } else if k == "nomobile"@ {
        seq![OptField::CoreBuilderNomobile]
    } else if k == "noremap"@ {
        seq![OptField::CoreBuilderNoremap]
    } else if k == "noecdremap"@ {
        seq![OptField::BuilderNoecdremap]
    } else if k == "nandmu"@ {
        seq![OptField::CoreBuilderNandmu]
    } else if k == "nosecurity"@ {
        seq![OptField::CoreBuilderNosecurity]
    } else if k == "nosusecurity"@ {
        seq![OptField::CoreBuilderNosusecurity]
    } else if k == "noecc"@ {
        seq![OptField::CoreBuilderNoecc]
    } else if k == "noflashfs"@ {
        seq![OptField::BuilderNoflashfs]
    } else if k == "dualpatchslots"@ {
        seq![OptField::CoreBuilderDualpatchslots]
    } else if k == "smcnocheck"@ {
        seq![OptField::BuilderSmcnocheck]
    } else if k == "noenter"@ {
        seq![OptField::CoreNoenter]
    } else if k == "nolog"@ {
        seq![OptField::CoreNolog]
    } else if k == "noinfo"@ {
        seq![OptField::CoreNoinfo]
    } else if k == "gxunsafe"@ || k == "unsafe"@ {
        seq![OptField::CoreGxunsafe, OptField::BuilderGxunsafe]
    } else if k == "verbose"@ {
        seq![OptField::CoreVerbose, OptField::BuilderVerbose]
    } else if k == "nochainpatch"@ {
        seq![OptField::CoreBuilderNochainpatch]
    } else if k == "cputemp"@ {
        seq![OptField::SmcCputemp]
    } else if k == "gputemp"@ {
        seq![OptField::SmcGputemp]
    } else if k == "edramtemp"@ {
        seq![OptField::SmcEdramtemp]
    } else if k == "overcputemp"@ {
        seq![OptField::SmcOvercputemp]
    } else if k == "overgputemp"@ {
        seq![OptField::SmcOvergputemp]
    } else if k == "overedramtemp"@ {
        seq![OptField::SmcOveredramtemp]
    } else if k == "cpufan"@ {
        seq![OptField::SmcCpufan]
    } else if k == "gpufan"@ {
        seq![OptField::SmcGpufan]
    } else if k == "avregion"@ {
        seq![OptField::KeyvaultAvregion]
    } else if k == "gameregion"@ {
        seq![OptField::KeyvaultGameregion]
    } else if k == "dvdregion"@ {
        seq![OptField::KeyvaultDvdregion]
    } else if k == "macid"@ {
        seq![OptField::KeyvaultMacid]
    } else if k == "serial"@ {
        seq![OptField::KeyvaultSerial]
    } else if k == "consoleid"@ {
        seq![OptField::KeyvaultConsoleid]
    } else if k == "osig"@ {
        seq![OptField::KeyvaultOsig]
    } else if k == "mfdate"@ {
        seq![OptField::KeyvaultMfdate]
    } else if k == "nofcrt"@ {
        seq![OptField::CoreBuilderNofcrt]
    } else if k == "mfg"@ {
        seq![OptField::CoreBuilderMfg]
    } else if k == "xsb"@ {
        seq![OptField::CoreBuilderXsb]
    } else if k == "full_image"@ {
        seq![OptField::CoreBuilderFullImage]
    } else {
        Seq::empty()
    }
}

proof fn lemma_one_field_contains(s: Seq<OptField>, x: OptField)
    requires
        s == seq![x],
    ensures
        forall|f: OptField| #[trigger] s.contains(f) <==> f == x,
{
    assert forall|f: OptField| #[trigger] s.contains(f) <==> f == x by {
        if f == x {
            assert(s[0] == f);
        }
    }
}

proof fn lemma_two_fields_contains(s: Seq<OptField>, x: OptField, y: OptField)
    requires
        s == seq![x, y],
    ensures
        forall|f: OptField| #[trigger] s.contains(f) <==> f == x || f == y,
{
    assert forall|f: OptField| #[trigger] s.contains(f) <==> f == x || f == y by {
        if f == x {
            assert(s[0] == f);
        }
        if f == y {
            assert(s[1] == f);
        }
    }
}

/// Two texts that differ in length, or at `i`, differ.
proof fn lemma_keys_differ(a: Seq<char>, b: Seq<char>, i: int)
    requires
        a.len() != b.len() || (0 <= i < a.len() && i < b.len() && a[i] != b[i]),
    ensures
        a != b,
{
}

/// The options each `set_option` key sets, one line per key.
pub proof fn lemma_set_option_each_key_sets()
    ensures
        set_option_targets("region"@) == seq![OptField::KeyvaultAvregion],
        set_option_targets("avregion"@) == seq![OptField::KeyvaultAvregion],
        set_option_targets("gameregion"@) == seq![OptField::KeyvaultGameregion],
        set_option_targets("dvdregion"@) == seq![OptField::KeyvaultDvdregion],
        set_option_targets("unsafe"@) == seq![OptField::CoreGxunsafe, OptField::BuilderGxunsafe],
        set_option_targets("gxunsafe"@) == seq![OptField::CoreGxunsafe, OptField::BuilderGxunsafe],
        set_option_targets("verbose"@) == seq![OptField::CoreVerbose, OptField::BuilderVerbose],
        set_option_targets("nomobile"@) == seq![OptField::CoreBuilderNomobile],
        set_option_targets("noremap"@) == seq![OptField::CoreBuilderNoremap],
        set_option_targets("nandmu"@) == seq![OptField::CoreBuilderNandmu],
        set_option_targets("cputemp"@) == seq![OptField::SmcCputemp],
        set_option_targets("gputemp"@) == seq![OptField::SmcGputemp],
        set_option_targets("edramtemp"@) == seq![OptField::SmcEdramtemp],
        set_option_targets("overcputemp"@) == seq![OptField::SmcOvercputemp],
        set_option_targets("overgputemp"@) == seq![OptField::SmcOvergputemp],
        set_option_targets("overedramtemp"@) == seq![OptField::SmcOveredramtemp],
        set_option_targets("cpufan"@) == seq![OptField::SmcCpufan],
        set_option_targets("gpufan"@) == seq![OptField::SmcGpufan],
        set_option_targets("macid"@) == seq![OptField::KeyvaultMacid],
        set_option_targets("mac"@) == seq![OptField::KeyvaultMacid],
        set_option_targets("dvdkey"@) == seq![OptField::KeyvaultDvdkey],
        set_option_targets("cfldv"@) == seq![OptField::KeysCfldv],
        set_option_targets("serial"@) == seq![OptField::KeyvaultSerial],
        set_option_targets("consoleid"@) == seq![OptField::KeyvaultConsoleid],
        set_option_targets("osig"@) == seq![OptField::KeyvaultOsig],
        set_option_targets("mfdate"@) == seq![OptField::KeyvaultMfdate],
        set_option_targets("nofcrt"@) == seq![OptField::CoreBuilderNofcrt],
        set_option_targets("xellbutton"@) == seq![OptField::BuilderXellbutton],
        set_option_targets("xellbutton2"@) == seq![OptField::BuilderXellbutton2],
        set_option_targets("cygnos"@) == seq![OptField::JtagCygnos],
        set_option_targets("demon"@) == seq![OptField::JtagDemon],
        set_option_targets("smcnoeject"@) == seq![OptField::JtagSmcnoeject],
        set_option_targets("smcnoblink"@) == seq![OptField::JtagSmcnoblink],
        set_option_targets("patchsmc"@) == seq![OptField::JtagPatchsmc],
        set_option_targets("olddvd"@) == seq![OptField::JtagOlddvd],
        set_option_targets("nodvd"@) == seq![OptField::JtagNodvd],
        set_option_targets("dualboot"@) == seq![OptField::JtagDualboot],
        set_option_targets("dualpatchslots"@) == seq![OptField::CoreBuilderDualpatchslots],
        set_option_targets("nolog"@) == seq![OptField::CoreNolog],
        set_option_targets("noinfo"@) == seq![OptField::CoreNoinfo],
        set_option_targets("noenter"@) == seq![OptField::CoreNoenter],
        set_option_targets("noecc"@) == seq![OptField::CoreBuilderNoecc],
        set_option_targets("noecdremap"@) == seq![OptField::BuilderNoecdremap],
        set_option_targets("smcnocheck"@) == seq![OptField::BuilderSmcnocheck],
        set_option_targets("nosecurity"@) == seq![OptField::CoreBuilderNosecurity],
        set_option_targets("nosusecurity"@) == seq![OptField::CoreBuilderNosusecurity],
        set_option_targets("nochainpatch"@) == seq![OptField::CoreBuilderNochainpatch],
        set_option_targets("mfg"@) == seq![OptField::CoreBuilderMfg],
        set_option_targets("xsb"@) == seq![OptField::CoreBuilderXsb],
        set_option_targets("full_image"@) == seq![OptField::CoreBuilderFullImage],
{
    reveal_strlit("region");
    assert("region"@.len() == 6);
    reveal_strlit("avregion");
    assert("avregion"@.len() == 8);
    reveal_strlit("gameregion");
    assert("gameregion"@.len() == 10);
    reveal_strlit("dvdregion");
    assert("dvdregion"@.len() == 9);
    reveal_strlit("unsafe");
    assert("unsafe"@.len() == 6);
    reveal_strlit("gxunsafe");
    assert("gxunsafe"@.len() == 8);
    reveal_strlit("verbose");
    assert("verbose"@.len() == 7);
    reveal_strlit("nomobile");
    assert("nomobile"@.len() == 8);
    reveal_strlit("noremap");
    assert("noremap"@.len() == 7);
    reveal_strlit("nandmu");
    assert("nandmu"@.len() == 6);
    reveal_strlit("cputemp");
    assert("cputemp"@.len() == 7);
    reveal_strlit("gputemp");
    assert("gputemp"@.len() == 7);
    reveal_strlit("edramtemp");
    assert("edramtemp"@.len() == 9);
    reveal_strlit("overcputemp");
    assert("overcputemp"@.len() == 11);
    reveal_strlit("overgputemp");
    assert("overgputemp"@.len() == 11);
    reveal_strlit("overedramtemp");
    assert("overedramtemp"@.len() == 13);
    reveal_strlit("cpufan");
    assert("cpufan"@.len() == 6);
    reveal_strlit("gpufan");
    assert("gpufan"@.len() == 6);
    reveal_strlit("macid");
    assert("macid"@.len() == 5);
    reveal_strlit("mac");
    assert("mac"@.len() == 3);
    reveal_strlit("dvdkey");
    assert("dvdkey"@.len() == 6);
    reveal_strlit("cfldv");
    assert("cfldv"@.len() == 5);
    reveal_strlit("serial");
    assert("serial"@.len() == 6);
    reveal_strlit("consoleid");
    assert("consoleid"@.len() == 9);
    reveal_strlit("osig");
    assert("osig"@.len() == 4);
    reveal_strlit("mfdate");
    assert("mfdate"@.len() == 6);
    reveal_strlit("nofcrt");
    assert("nofcrt"@.len() == 6);
    reveal_strlit("xellbutton");
    assert("xellbutton"@.len() == 10);
    reveal_strlit("xellbutton2");
    assert("xellbutton2"@.len() == 11);
    reveal_strlit("cygnos");
    assert("cygnos"@.len() == 6);
    reveal_strlit("demon");
    assert("demon"@.len() == 5);
    reveal_strlit("smcnoeject");
    assert("smcnoeject"@.len() == 10);
    reveal_strlit("smcnoblink");
    assert("smcnoblink"@.len() == 10);
    reveal_strlit("patchsmc");
    assert("patchsmc"@.len() == 8);
    reveal_strlit("olddvd");
    assert("olddvd"@.len() == 6);
    reveal_strlit("nodvd");
    assert("nodvd"@.len() == 5);
    reveal_strlit("dualboot");
    assert("dualboot"@.len() == 8);
    reveal_strlit("dualpatchslots");
    assert("dualpatchslots"@.len() == 14);
    reveal_strlit("nolog");
    assert("nolog"@.len() == 5);
    reveal_strlit("noinfo");
    assert("noinfo"@.len() == 6);
    reveal_strlit("noenter");
    assert("noenter"@.len() == 7);
    reveal_strlit("noecc");
    assert("noecc"@.len() == 5);
    reveal_strlit("noecdremap");
    assert("noecdremap"@.len() == 10);
    reveal_strlit("smcnocheck");
    assert("smcnocheck"@.len() == 10);
    reveal_strlit("nosecurity");
    assert("nosecurity"@.len() == 10);
    reveal_strlit("nosusecurity");
    assert("nosusecurity"@.len() == 12);
    reveal_strlit("nochainpatch");
    assert("nochainpatch"@.len() == 12);
    reveal_strlit("mfg");
    assert("mfg"@.len() == 3);
    reveal_strlit("xsb");
    assert("xsb"@.len() == 3);
    reveal_strlit("full_image");
    assert("full_image"@.len() == 10);
    lemma_keys_differ("region"@, "unsafe"@, 0);
    lemma_keys_differ("region"@, "nandmu"@, 0);
    lemma_keys_differ("region"@, "cpufan"@, 0);
    lemma_keys_differ("region"@, "gpufan"@, 0);
    lemma_keys_differ("region"@, "dvdkey"@, 0);
    lemma_keys_differ("region"@, "serial"@, 0);
    lemma_keys_differ("region"@, "mfdate"@, 0);
    lemma_keys_differ("region"@, "nofcrt"@, 0);
    lemma_keys_differ("region"@, "cygnos"@, 0);
    lemma_keys_differ("region"@, "olddvd"@, 0);
    lemma_keys_differ("region"@, "noinfo"@, 0);
    lemma_keys_differ("avregion"@, "gxunsafe"@, 0);
    lemma_keys_differ("avregion"@, "nomobile"@, 0);
    lemma_keys_differ("avregion"@, "patchsmc"@, 0);
    lemma_keys_differ("avregion"@, "dualboot"@, 0);
    lemma_keys_differ("gameregion"@, "xellbutton"@, 0);
    lemma_keys_differ("gameregion"@, "smcnoeject"@, 0);
    lemma_keys_differ("gameregion"@, "smcnoblink"@, 0);
    lemma_keys_differ("gameregion"@, "noecdremap"@, 0);
    lemma_keys_differ("gameregion"@, "smcnocheck"@, 0);
    lemma_keys_differ("gameregion"@, "nosecurity"@, 0);
    lemma_keys_differ("gameregion"@, "full_image"@, 0);
    lemma_keys_differ("dvdregion"@, "edramtemp"@, 0);
    lemma_keys_differ("dvdregion"@, "consoleid"@, 0);
    lemma_keys_differ("unsafe"@, "nandmu"@, 0);
    lemma_keys_differ("unsafe"@, "cpufan"@, 0);
    lemma_keys_differ("unsafe"@, "gpufan"@, 0);
    lemma_keys_differ("unsafe"@, "dvdkey"@, 0);
    lemma_keys_differ("unsafe"@, "serial"@, 0);
    lemma_keys_differ("unsafe"@, "mfdate"@, 0);
    lemma_keys_differ("unsafe"@, "nofcrt"@, 0);
    lemma_keys_differ("unsafe"@, "cygnos"@, 0);
    lemma_keys_differ("unsafe"@, "olddvd"@, 0);
    lemma_keys_differ("unsafe"@, "noinfo"@, 0);
    lemma_keys_differ("gxunsafe"@, "nomobile"@, 0);
    lemma_keys_differ("gxunsafe"@, "patchsmc"@, 0);
    lemma_keys_differ("gxunsafe"@, "dualboot"@, 0);
    lemma_keys_differ("verbose"@, "noremap"@, 0);
    lemma_keys_differ("verbose"@, "cputemp"@, 0);
    lemma_keys_differ("verbose"@, "gputemp"@, 0);
    lemma_keys_differ("verbose"@, "noenter"@, 0);
    lemma_keys_differ("nomobile"@, "patchsmc"@, 0);
    lemma_keys_differ("nomobile"@, "dualboot"@, 0);
    lemma_keys_differ("noremap"@, "cputemp"@, 0);
    lemma_keys_differ("noremap"@, "gputemp"@, 0);
    lemma_keys_differ("noremap"@, "noenter"@, 2);
    lemma_keys_differ("nandmu"@, "cpufan"@, 0);
    lemma_keys_differ("nandmu"@, "gpufan"@, 0);
    lemma_keys_differ("nandmu"@, "dvdkey"@, 0);
    lemma_keys_differ("nandmu"@, "serial"@, 0);
    lemma_keys_differ("nandmu"@, "mfdate"@, 0);
    lemma_keys_differ("nandmu"@, "nofcrt"@, 1);
    lemma_keys_differ("nandmu"@, "cygnos"@, 0);
    lemma_keys_differ("nandmu"@, "olddvd"@, 0);
    lemma_keys_differ("nandmu"@, "noinfo"@, 1);
    lemma_keys_differ("cputemp"@, "gputemp"@, 0);
    lemma_keys_differ("cputemp"@, "noenter"@, 0);
    lemma_keys_differ("gputemp"@, "noenter"@, 0);
    lemma_keys_differ("edramtemp"@, "consoleid"@, 0);
    lemma_keys_differ("overcputemp"@, "overgputemp"@, 4);
    lemma_keys_differ("overcputemp"@, "xellbutton2"@, 0);
    lemma_keys_differ("overgputemp"@, "xellbutton2"@, 0);
    lemma_keys_differ("cpufan"@, "gpufan"@, 0);
    lemma_keys_differ("cpufan"@, "dvdkey"@, 0);
    lemma_keys_differ("cpufan"@, "serial"@, 0);
    lemma_keys_differ("cpufan"@, "mfdate"@, 0);
    lemma_keys_differ("cpufan"@, "nofcrt"@, 0);
    lemma_keys_differ("cpufan"@, "cygnos"@, 1);
    lemma_keys_differ("cpufan"@, "olddvd"@, 0);
    lemma_keys_differ("cpufan"@, "noinfo"@, 0);
    lemma_keys_differ("gpufan"@, "dvdkey"@, 0);
    lemma_keys_differ("gpufan"@, "serial"@, 0);
    lemma_keys_differ("gpufan"@, "mfdate"@, 0);
    lemma_keys_differ("gpufan"@, "nofcrt"@, 0);
    lemma_keys_differ("gpufan"@, "cygnos"@, 0);
    lemma_keys_differ("gpufan"@, "olddvd"@, 0);
    lemma_keys_differ("gpufan"@, "noinfo"@, 0);
    lemma_keys_differ("macid"@, "cfldv"@, 0);
    lemma_keys_differ("macid"@, "demon"@, 0);
    lemma_keys_differ("macid"@, "nodvd"@, 0);
    lemma_keys_differ("macid"@, "nolog"@, 0);
    lemma_keys_differ("macid"@, "noecc"@, 0);
    lemma_keys_differ("mac"@, "mfg"@, 1);
    lemma_keys_differ("mac"@, "xsb"@, 0);
    lemma_keys_differ("dvdkey"@, "serial"@, 0);
    lemma_keys_differ("dvdkey"@, "mfdate"@, 0);
    lemma_keys_differ("dvdkey"@, "nofcrt"@, 0);
    lemma_keys_differ("dvdkey"@, "cygnos"@, 0);
    lemma_keys_differ("dvdkey"@, "olddvd"@, 0);
    lemma_keys_differ("dvdkey"@, "noinfo"@, 0);
    lemma_keys_differ("cfldv"@, "demon"@, 0);
    lemma_keys_differ("cfldv"@, "nodvd"@, 0);
    lemma_keys_differ("cfldv"@, "nolog"@, 0);
    lemma_keys_differ("cfldv"@, "noecc"@, 0);
    lemma_keys_differ("serial"@, "mfdate"@, 0);
    lemma_keys_differ("serial"@, "nofcrt"@, 0);
    lemma_keys_differ("serial"@, "cygnos"@, 0);
    lemma_keys_differ("serial"@, "olddvd"@, 0);
    lemma_keys_differ("serial"@, "noinfo"@, 0);
    lemma_keys_differ("mfdate"@, "nofcrt"@, 0);
    lemma_keys_differ("mfdate"@, "cygnos"@, 0);
    lemma_keys_differ("mfdate"@, "olddvd"@, 0);
    lemma_keys_differ("mfdate"@, "noinfo"@, 0);
    lemma_keys_differ("nofcrt"@, "cygnos"@, 0);
    lemma_keys_differ("nofcrt"@, "olddvd"@, 0);
    lemma_keys_differ("nofcrt"@, "noinfo"@, 2);
    lemma_keys_differ("xellbutton"@, "smcnoeject"@, 0);
    lemma_keys_differ("xellbutton"@, "smcnoblink"@, 0);
    lemma_keys_differ("xellbutton"@, "noecdremap"@, 0);
    lemma_keys_differ("xellbutton"@, "smcnocheck"@, 0);
    lemma_keys_differ("xellbutton"@, "nosecurity"@, 0);
    lemma_keys_differ("xellbutton"@, "full_image"@, 0);
    lemma_keys_differ("cygnos"@, "olddvd"@, 0);
    lemma_keys_differ("cygnos"@, "noinfo"@, 0);
    lemma_keys_differ("demon"@, "nodvd"@, 0);
    lemma_keys_differ("demon"@, "nolog"@, 0);
    lemma_keys_differ("demon"@, "noecc"@, 0);
    lemma_keys_differ("smcnoeject"@, "smcnoblink"@, 5);
    lemma_keys_differ("smcnoeject"@, "noecdremap"@, 0);
    lemma_keys_differ("smcnoeject"@, "smcnocheck"@, 5);
    lemma_keys_differ("smcnoeject"@, "nosecurity"@, 0);
    lemma_keys_differ("smcnoeject"@, "full_image"@, 0);
    lemma_keys_differ("smcnoblink"@, "noecdremap"@, 0);
    lemma_keys_differ("smcnoblink"@, "smcnocheck"@, 5);
    lemma_keys_differ("smcnoblink"@, "nosecurity"@, 0);
    lemma_keys_differ("smcnoblink"@, "full_image"@, 0);
    lemma_keys_differ("patchsmc"@, "dualboot"@, 0);
    lemma_keys_differ("olddvd"@, "noinfo"@, 0);
    lemma_keys_differ("nodvd"@, "nolog"@, 2);
    lemma_keys_differ("nodvd"@, "noecc"@, 2);
    lemma_keys_differ("nolog"@, "noecc"@, 2);
    lemma_keys_differ("noecdremap"@, "smcnocheck"@, 0);
    lemma_keys_differ("noecdremap"@, "nosecurity"@, 2);
    lemma_keys_differ("noecdremap"@, "full_image"@, 0);
    lemma_keys_differ("smcnocheck"@, "nosecurity"@, 0);
    lemma_keys_differ("smcnocheck"@, "full_image"@, 0);
    lemma_keys_differ("nosecurity"@, "full_image"@, 0);
    lemma_keys_differ("nosusecurity"@, "nochainpatch"@, 2);
    lemma_keys_differ("mfg"@, "xsb"@, 0);
}

/// Only its own key (or its alias) sets an option through `set_option`: the
/// key `region` or `avregion`, and nothing else, sets the AV region; `unsafe`
/// or `gxunsafe` the two unsafe flags; and so on for every option it reaches.
pub proof fn lemma_only_its_set_key_sets_an_option(k: Seq<char>)
    ensures
        set_option_targets(k).contains(OptField::KeyvaultAvregion) ==> (k == "region"@ || k == "avregion"@),
        set_option_targets(k).contains(OptField::KeyvaultGameregion) ==> (k == "gameregion"@),
        set_option_targets(k).contains(OptField::KeyvaultDvdregion) ==> (k == "dvdregion"@),
        set_option_targets(k).contains(OptField::CoreGxunsafe) ==> (k == "unsafe"@ || k == "gxunsafe"@),
        set_option_targets(k).contains(OptField::BuilderGxunsafe) ==> (k == "unsafe"@ || k == "gxunsafe"@),
        set_option_targets(k).contains(OptField::CoreVerbose) ==> (k == "verbose"@),
        set_option_targets(k).contains(OptField::BuilderVerbose) ==> (k == "verbose"@),
        set_option_targets(k).contains(OptField::CoreBuilderNomobile) ==> (k == "nomobile"@),
        set_option_targets(k).contains(OptField::CoreBuilderNoremap) ==> (k == "noremap"@),
        set_option_targets(k).contains(OptField::CoreBuilderNandmu) ==> (k == "nandmu"@),
        set_option_targets(k).contains(OptField::SmcCputemp) ==> (k == "cputemp"@),
        set_option_targets(k).contains(OptField::SmcGputemp) ==> (k == "gputemp"@),
        set_option_targets(k).contains(OptField::SmcEdramtemp) ==> (k == "edramtemp"@),
        set_option_targets(k).contains(OptField::SmcOvercputemp) ==> (k == "overcputemp"@),
        set_option_targets(k).contains(OptField::SmcOvergputemp) ==> (k == "overgputemp"@),
        set_option_targets(k).contains(OptField::SmcOveredramtemp) ==> (k == "overedramtemp"@),
        set_option_targets(k).contains(OptField::SmcCpufan) ==> (k == "cpufan"@),
        set_option_targets(k).contains(OptField::SmcGpufan) ==> (k == "gpufan"@),
        set_option_targets(k).contains(OptField::KeyvaultMacid) ==> (k == "macid"@ || k == "mac"@),
        set_option_targets(k).contains(OptField::KeyvaultDvdkey) ==> (k == "dvdkey"@),
        set_option_targets(k).contains(OptField::KeysCfldv) ==> (k == "cfldv"@),
        set_option_targets(k).contains(OptField::KeyvaultSerial) ==> (k == "serial"@),
        set_option_targets(k).contains(OptField::KeyvaultConsoleid) ==> (k == "consoleid"@),
        set_option_targets(k).contains(OptField::KeyvaultOsig) ==> (k == "osig"@),
        set_option_targets(k).contains(OptField::KeyvaultMfdate) ==> (k == "mfdate"@),
        set_option_targets(k).contains(OptField::CoreBuilderNofcrt) ==> (k == "nofcrt"@),
        set_option_targets(k).contains(OptField::BuilderXellbutton) ==> (k == "xellbutton"@),
        set_option_targets(k).contains(OptField::BuilderXellbutton2) ==> (k == "xellbutton2"@),
        set_option_targets(k).contains(OptField::JtagCygnos) ==> (k == "cygnos"@),
        set_option_targets(k).contains(OptField::JtagDemon) ==> (k == "demon"@),
        set_option_targets(k).contains(OptField::JtagSmcnoeject) ==> (k == "smcnoeject"@),
        set_option_targets(k).contains(OptField::JtagSmcnoblink) ==> (k == "smcnoblink"@),
        set_option_targets(k).contains(OptField::JtagPatchsmc) ==> (k == "patchsmc"@),
        set_option_targets(k).contains(OptField::JtagOlddvd) ==> (k == "olddvd"@),
        set_option_targets(k).contains(OptField::JtagNodvd) ==> (k == "nodvd"@),
        set_option_targets(k).contains(OptField::JtagDualboot) ==> (k == "dualboot"@),
        set_option_targets(k).contains(OptField::CoreBuilderDualpatchslots) ==> (k == "dualpatchslots"@),
        set_option_targets(k).contains(OptField::CoreNolog) ==> (k == "nolog"@),
        set_option_targets(k).contains(OptField::CoreNoinfo) ==> (k == "noinfo"@),
        set_option_targets(k).contains(OptField::CoreNoenter) ==> (k == "noenter"@),
        set_option_targets(k).contains(OptField::CoreBuilderNoecc) ==> (k == "noecc"@),
        set_option_targets(k).contains(OptField::BuilderNoecdremap) ==> (k == "noecdremap"@),
        set_option_targets(k).contains(OptField::BuilderSmcnocheck) ==> (k == "smcnocheck"@),
        set_option_targets(k).contains(OptField::CoreBuilderNosecurity) ==> (k == "nosecurity"@),
        set_option_targets(k).contains(OptField::CoreBuilderNosusecurity) ==> (k == "nosusecurity"@),
        set_option_targets(k).contains(OptField::CoreBuilderNochainpatch) ==> (k == "nochainpatch"@),
        set_option_targets(k).contains(OptField::CoreBuilderMfg) ==> (k == "mfg"@),
        set_option_targets(k).contains(OptField::CoreBuilderXsb) ==> (k == "xsb"@),
        set_option_targets(k).contains(OptField::CoreBuilderFullImage) ==> (k == "full_image"@),
{
    if k == "region"@ || k == "avregion"@ {
        assert(set_option_targets(k) == seq![OptField::KeyvaultAvregion]);
        lemma_one_field_contains(set_option_targets(k), OptField::KeyvaultAvregion);
    } else if k == "gameregion"@ {
        assert(set_option_targets(k) == seq![OptField::KeyvaultGameregion]);
        lemma_one_field_contains(set_option_targets(k), OptField::KeyvaultGameregion);
    } else if k == "dvdregion"@ {
        assert(set_option_targets(k) == seq![OptField::KeyvaultDvdregion]);
        lemma_one_field_contains(set_option_targets(k), OptField::KeyvaultDvdregion);
    } else if k == "unsafe"@ || k == "gxunsafe"@ {
        assert(set_option_targets(k) == seq![OptField::CoreGxunsafe, OptField::BuilderGxunsafe]);
        lemma_two_fields_contains(set_option_targets(k), OptField::CoreGxunsafe, OptField::BuilderGxunsafe);
    } else if k == "verbose"@ {
        assert(set_option_targets(k) == seq![OptField::CoreVerbose, OptField::BuilderVerbose]);
        lemma_two_fields_contains(set_option_targets(k), OptField::CoreVerbose, OptField::BuilderVerbose);
    } else if k == "nomobile"@ {
        assert(set_option_targets(k) == seq![OptField::CoreBuilderNomobile]);
        lemma_one_field_contains(set_option_targets(k), OptField::CoreBuilderNomobile);
    } else if k == "noremap"@ {
        assert(set_option_targets(k) == seq![OptField::CoreBuilderNoremap]);
        lemma_one_field_contains(set_option_targets(k), OptField::CoreBuilderNoremap);
    } else if k == "nandmu"@ {
        assert(set_option_targets(k) == seq![OptField::CoreBuilderNandmu]);
        lemma_one_field_contains(set_option_targets(k), OptField::CoreBuilderNandmu);
    } else if k == "cputemp"@ {
        assert(set_option_targets(k) == seq![OptField::SmcCputemp]);
        lemma_one_field_contains(set_option_targets(k), OptField::SmcCputemp);
    } else if k == "gputemp"@ {
        assert(set_option_targets(k) == seq![OptField::SmcGputemp]);
        lemma_one_field_contains(set_option_targets(k), OptField::SmcGputemp);
    } else if k == "edramtemp"@ {
        assert(set_option_targets(k) == seq![OptField::SmcEdramtemp]);
        lemma_one_field_contains(set_option_targets(k), OptField::SmcEdramtemp);
    } else if k == "overcputemp"@ {
        assert(set_option_targets(k) == seq![OptField::SmcOvercputemp]);
        lemma_one_field_contains(set_option_targets(k), OptField::SmcOvercputemp);
    } else if k == "overgputemp"@ {
        assert(set_option_targets(k) == seq![OptField::SmcOvergputemp]);
        lemma_one_field_contains(set_option_targets(k), OptField::SmcOvergputemp);
    } else if k == "overedramtemp"@ {
        assert(set_option_targets(k) == seq![OptField::SmcOveredramtemp]);
        lemma_one_field_contains(set_option_targets(k), OptField::SmcOveredramtemp);
    } else if k == "cpufan"@ {
        assert(set_option_targets(k) == seq![OptField::SmcCpufan]);
        lemma_one_field_contains(set_option_targets(k), OptField::SmcCpufan);
    } else if k == "gpufan"@ {
        assert(set_option_targets(k) == seq![OptField::SmcGpufan]);
        lemma_one_field_contains(set_option_targets(k), OptField::SmcGpufan);
    } else if k == "macid"@ || k == "mac"@ {
        assert(set_option_targets(k) == seq![OptField::KeyvaultMacid]);
        lemma_one_field_contains(set_option_targets(k), OptField::KeyvaultMacid);
    } else if k == "dvdkey"@ {
        assert(set_option_targets(k) == seq![OptField::KeyvaultDvdkey]);
        lemma_one_field_contains(set_option_targets(k), OptField::KeyvaultDvdkey);
    } else if k == "cfldv"@ {
        assert(set_option_targets(k) == seq![OptField::KeysCfldv]);
        lemma_one_field_contains(set_option_targets(k), OptField::KeysCfldv);
    } else if k == "serial"@ {
        assert(set_option_targets(k) == seq![OptField::KeyvaultSerial]);
        lemma_one_field_contains(set_option_targets(k), OptField::KeyvaultSerial);
    } else if k == "consoleid"@ {
        assert(set_option_targets(k) == seq![OptField::KeyvaultConsoleid]);
        lemma_one_field_contains(set_option_targets(k), OptField::KeyvaultConsoleid);
    } else if k == "osig"@ {
        assert(set_option_targets(k) == seq![OptField::KeyvaultOsig]);
        lemma_one_field_contains(set_option_targets(k), OptField::KeyvaultOsig);
    } else if k == "mfdate"@ {
        assert(set_option_targets(k) == seq![OptField::KeyvaultMfdate]);
        lemma_one_field_contains(set_option_targets(k), OptField::KeyvaultMfdate);
    } else if k == "nofcrt"@ {
        assert(set_option_targets(k) == seq![OptField::CoreBuilderNofcrt]);
        lemma_one_field_contains(set_option_targets(k), OptField::CoreBuilderNofcrt);
    } else if k == "xellbutton"@ {
        assert(set_option_targets(k) == seq![OptField::BuilderXellbutton]);
        lemma_one_field_contains(set_option_targets(k), OptField::BuilderXellbutton);
    } else if k == "xellbutton2"@ {
        assert(set_option_targets(k) == seq![OptField::BuilderXellbutton2]);
        lemma_one_field_contains(set_option_targets(k), OptField::BuilderXellbutton2);
    } else if k == "cygnos"@ {
        assert(set_option_targets(k) == seq![OptField::JtagCygnos]);
        lemma_one_field_contains(set_option_targets(k), OptField::JtagCygnos);
    } else if k == "demon"@ {
        assert(set_option_targets(k) == seq![OptField::JtagDemon]);
        lemma_one_field_contains(set_option_targets(k), OptField::JtagDemon);
    } else if k == "smcnoeject"@ {
        assert(set_option_targets(k) == seq![OptField::JtagSmcnoeject]);
        lemma_one_field_contains(set_option_targets(k), OptField::JtagSmcnoeject);
    } else if k == "smcnoblink"@ {
        assert(set_option_targets(k) == seq![OptField::JtagSmcnoblink]);
        lemma_one_field_contains(set_option_targets(k), OptField::JtagSmcnoblink);
    } else if k == "patchsmc"@ {
        assert(set_option_targets(k) == seq![OptField::JtagPatchsmc]);
        lemma_one_field_contains(set_option_targets(k), OptField::JtagPatchsmc);
    } else if k == "olddvd"@ {
        assert(set_option_targets(k) == seq![OptField::JtagOlddvd]);
        lemma_one_field_contains(set_option_targets(k), OptField::JtagOlddvd);
    } else if k == "nodvd"@ {
        assert(set_option_targets(k) == seq![OptField::JtagNodvd]);
        lemma_one_field_contains(set_option_targets(k), OptField::JtagNodvd);
    } else if k == "dualboot"@ {
        assert(set_option_targets(k) == seq![OptField::JtagDualboot]);
        lemma_one_field_contains(set_option_targets(k), OptField::JtagDualboot);
    } else if k == "dualpatchslots"@ {
        assert(set_option_targets(k) == seq![OptField::CoreBuilderDualpatchslots]);
        lemma_one_field_contains(set_option_targets(k), OptField::CoreBuilderDualpatchslots);
    } else if k == "nolog"@ {
        assert(set_option_targets(k) == seq![OptField::CoreNolog]);
        lemma_one_field_contains(set_option_targets(k), OptField::CoreNolog);
    } else if k == "noinfo"@ {
        assert(set_option_targets(k) == seq![OptField::CoreNoinfo]);
        lemma_one_field_contains(set_option_targets(k), OptField::CoreNoinfo);
    } else if k == "noenter"@ {
        assert(set_option_targets(k) == seq![OptField::CoreNoenter]);
        lemma_one_field_contains(set_option_targets(k), OptField::CoreNoenter);
    } else if k == "noecc"@ {
        assert(set_option_targets(k) == seq![OptField::CoreBuilderNoecc]);
        lemma_one_field_contains(set_option_targets(k), OptField::CoreBuilderNoecc);
    } else if k == "noecdremap"@ {
        assert(set_option_targets(k) == seq![OptField::BuilderNoecdremap]);
        lemma_one_field_contains(set_option_targets(k), OptField::BuilderNoecdremap);
    } else if k == "smcnocheck"@ {
        assert(set_option_targets(k) == seq![OptField::BuilderSmcnocheck]);
        lemma_one_field_contains(set_option_targets(k), OptField::BuilderSmcnocheck);
    } else if k == "nosecurity"@ {
        assert(set_option_targets(k) == seq![OptField::CoreBuilderNosecurity]);
        lemma_one_field_contains(set_option_targets(k), OptField::CoreBuilderNosecurity);
    } else if k == "nosusecurity"@ {
        assert(set_option_targets(k) == seq![OptField::CoreBuilderNosusecurity]);
        lemma_one_field_contains(set_option_targets(k), OptField::CoreBuilderNosusecurity);
    } else if k == "nochainpatch"@ {
        assert(set_option_targets(k) == seq![OptField::CoreBuilderNochainpatch]);
        lemma_one_field_contains(set_option_targets(k), OptField::CoreBuilderNochainpatch);
    } else if k == "mfg"@ {
        assert(set_option_targets(k) == seq![OptField::CoreBuilderMfg]);
        lemma_one_field_contains(set_option_targets(k), OptField::CoreBuilderMfg);
    } else if k == "xsb"@ {
        assert(set_option_targets(k) == seq![OptField::CoreBuilderXsb]);
        lemma_one_field_contains(set_option_targets(k), OptField::CoreBuilderXsb);
    } else if k == "full_image"@ {
        assert(set_option_targets(k) == seq![OptField::CoreBuilderFullImage]);
        lemma_one_field_contains(set_option_targets(k), OptField::CoreBuilderFullImage);
    } else {
        assert(set_option_targets(k) == Seq::<OptField>::empty());
    }
}

/// The options each `options.ini` key sets: `1blkey` sets `keys._1blkey`,
/// `cpukey` the CPU key, and so on, one line per key.
pub proof fn lemma_options_each_key_sets()
    ensures
        ini_option_targets("type"@) == seq![OptField::KeysCtype],
        ini_option_targets("1blkey"@) == seq![OptField::KeysKey1blkey],
        ini_option_targets("cpukey"@) == seq![OptField::KeysCpukey],
        ini_option_targets("cfldv"@) == seq![OptField::KeysCfldv],
        ini_option_targets("dvdkey"@) == seq![OptField::KeyvaultDvdkey],
        ini_option_targets("xellbutton"@) == seq![OptField::BuilderXellbutton],
        ini_option_targets("xellbutton2"@) == seq![OptField::BuilderXellbutton2],
        ini_option_targets("cygnos"@) == seq![OptField::JtagCygnos],
        ini_option_targets("demon"@) == seq![OptField::JtagDemon],
        ini_option_targets("smcnoeject"@) == seq![OptField::JtagSmcnoeject],
        ini_option_targets("smcnoblink"@) == seq![OptField::JtagSmcnoblink],
        ini_option_targets("patchsmc"@) == seq![OptField::JtagPatchsmc],
        ini_option_targets("olddvd"@) == seq![OptField::JtagOlddvd],
        ini_option_targets("nodvd"@) == seq![OptField::JtagNodvd],
        ini_option_targets("dualboot"@) == seq![OptField::JtagDualboot],
        ini_option_targets("nomobile"@) == seq![OptField::CoreBuilderNomobile],
        ini_option_targets("noremap"@) == seq![OptField::CoreBuilderNoremap],
        ini_option_targets("noecdremap"@) == seq![OptField::BuilderNoecdremap],
        ini_option_targets("nandmu"@) == seq![OptField::CoreBuilderNandmu],
        ini_option_targets("nosecurity"@) == seq![OptField::CoreBuilderNosecurity],
        ini_option_targets("nosusecurity"@) == seq![OptField::CoreBuilderNosusecurity],
        ini_option_targets("noecc"@) == seq![OptField::CoreBuilderNoecc],
        ini_option_targets("noflashfs"@) == seq![OptField::BuilderNoflashfs],
        ini_option_targets("dualpatchslots"@) == seq![OptField::CoreBuilderDualpatchslots],
        ini_option_targets("smcnocheck"@) == seq![OptField::BuilderSmcnocheck],
        ini_option_targets("noenter"@) == seq![OptField::CoreNoenter],
        ini_option_targets("nolog"@) == seq![OptField::CoreNolog],
        ini_option_targets("noinfo"@) == seq![OptField::CoreNoinfo],
        ini_option_targets("gxunsafe"@) == seq![OptField::CoreGxunsafe, OptField::BuilderGxunsafe],
        ini_option_targets("unsafe"@) == seq![OptField::CoreGxunsafe, OptField::BuilderGxunsafe],
        ini_option_targets("verbose"@) == seq![OptField::CoreVerbose, OptField::BuilderVerbose],
        ini_option_targets("nochainpatch"@) == seq![OptField::CoreBuilderNochainpatch],
        ini_option_targets("cputemp"@) == seq![OptField::SmcCputemp],
        ini_option_targets("gputemp"@) == seq![OptField::SmcGputemp],
        ini_option_targets("edramtemp"@) == seq![OptField::SmcEdramtemp],
        ini_option_targets("overcputemp"@) == seq![OptField::SmcOvercputemp],
        ini_option_targets("overgputemp"@) == seq![OptField::SmcOvergputemp],
        ini_option_targets("overedramtemp"@) == seq![OptField::SmcOveredramtemp],
        ini_option_targets("cpufan"@) == seq![OptField::SmcCpufan],
        ini_option_targets("gpufan"@) == seq![OptField::SmcGpufan],
        ini_option_targets("avregion"@) == seq![OptField::KeyvaultAvregion],
        ini_option_targets("gameregion"@) == seq![OptField::KeyvaultGameregion],
        ini_option_targets("dvdregion"@) == seq![OptField::KeyvaultDvdregion],
        ini_option_targets("macid"@) == seq![OptField::KeyvaultMacid],
        ini_option_targets("serial"@) == seq![OptField::KeyvaultSerial],
        ini_option_targets("consoleid"@) == seq![OptField::KeyvaultConsoleid],
        ini_option_targets("osig"@) == seq![OptField::KeyvaultOsig],
        ini_option_targets("mfdate"@) == seq![OptField::KeyvaultMfdate],
        ini_option_targets("nofcrt"@) == seq![OptField::CoreBuilderNofcrt],
        ini_option_targets("mfg"@) == seq![OptField::CoreBuilderMfg],
        ini_option_targets("xsb"@) == seq![OptField::CoreBuilderXsb],
        ini_option_targets("full_image"@) == seq![OptField::CoreBuilderFullImage],
{
    reveal_strlit("type");
    assert("type"@.len() == 4);
    reveal_strlit("1blkey");
    assert("1blkey"@.len() == 6);
    reveal_strlit("cpukey");
    assert("cpukey"@.len() == 6);
    reveal_strlit("cfldv");
    assert("cfldv"@.len() == 5);
    reveal_strlit("dvdkey");
    assert("dvdkey"@.len() == 6);
    reveal_strlit("xellbutton");
    assert("xellbutton"@.len() == 10);
    reveal_strlit("xellbutton2");
    assert("xellbutton2"@.len() == 11);
    reveal_strlit("cygnos");
    assert("cygnos"@.len() == 6);
    reveal_strlit("demon");
    assert("demon"@.len() == 5);
    reveal_strlit("smcnoeject");
    assert("smcnoeject"@.len() == 10);
    reveal_strlit("smcnoblink");
    assert("smcnoblink"@.len() == 10);
    reveal_strlit("patchsmc");
    assert("patchsmc"@.len() == 8);
    reveal_strlit("olddvd");
    assert("olddvd"@.len() == 6);
    reveal_strlit("nodvd");
    assert("nodvd"@.len() == 5);
    reveal_strlit("dualboot");
    assert("dualboot"@.len() == 8);
    reveal_strlit("nomobile");
    assert("nomobile"@.len() == 8);
    reveal_strlit("noremap");
    assert("noremap"@.len() == 7);
    reveal_strlit("noecdremap");
    assert("noecdremap"@.len() == 10);
    reveal_strlit("nandmu");
    assert("nandmu"@.len() == 6);
    reveal_strlit("nosecurity");
    assert("nosecurity"@.len() == 10);
    reveal_strlit("nosusecurity");
    assert("nosusecurity"@.len() == 12);
    reveal_strlit("noecc");
    assert("noecc"@.len() == 5);
    reveal_strlit("noflashfs");
    assert("noflashfs"@.len() == 9);
    reveal_strlit("dualpatchslots");
    assert("dualpatchslots"@.len() == 14);
    reveal_strlit("smcnocheck");
    assert("smcnocheck"@.len() == 10);
    reveal_strlit("noenter");
    assert("noenter"@.len() == 7);
    reveal_strlit("nolog");
    assert("nolog"@.len() == 5);
    reveal_strlit("noinfo");
    assert("noinfo"@.len() == 6);
    reveal_strlit("gxunsafe");
    assert("gxunsafe"@.len() == 8);
    reveal_strlit("unsafe");
    assert("unsafe"@.len() == 6);
    reveal_strlit("verbose");
    assert("verbose"@.len() == 7);
    reveal_strlit("nochainpatch");
    assert("nochainpatch"@.len() == 12);
    reveal_strlit("cputemp");
    assert("cputemp"@.len() == 7);
    reveal_strlit("gputemp");
    assert("gputemp"@.len() == 7);
    reveal_strlit("edramtemp");
    assert("edramtemp"@.len() == 9);
    reveal_strlit("overcputemp");
    assert("overcputemp"@.len() == 11);
    reveal_strlit("overgputemp");
    assert("overgputemp"@.len() == 11);
    reveal_strlit("overedramtemp");
    assert("overedramtemp"@.len() == 13);
    reveal_strlit("cpufan");
    assert("cpufan"@.len() == 6);
    reveal_strlit("gpufan");
    assert("gpufan"@.len() == 6);
    reveal_strlit("avregion");
    assert("avregion"@.len() == 8);
    reveal_strlit("gameregion");
    assert("gameregion"@.len() == 10);
    reveal_strlit("dvdregion");
    assert("dvdregion"@.len() == 9);
    reveal_strlit("macid");
    assert("macid"@.len() == 5);
    reveal_strlit("serial");
    assert("serial"@.len() == 6);
    reveal_strlit("consoleid");
    assert("consoleid"@.len() == 9);
    reveal_strlit("osig");
    assert("osig"@.len() == 4);
    reveal_strlit("mfdate");
    assert("mfdate"@.len() == 6);
    reveal_strlit("nofcrt");
    assert("nofcrt"@.len() == 6);
    reveal_strlit("mfg");
    assert("mfg"@.len() == 3);
    reveal_strlit("xsb");
    assert("xsb"@.len() == 3);
    reveal_strlit("full_image");
    assert("full_image"@.len() == 10);
    lemma_keys_differ("type"@, "osig"@, 0);
    lemma_keys_differ("1blkey"@, "cpukey"@, 0);
    lemma_keys_differ("1blkey"@, "dvdkey"@, 0);
    lemma_keys_differ("1blkey"@, "cygnos"@, 0);
    lemma_keys_differ("1blkey"@, "olddvd"@, 0);
    lemma_keys_differ("1blkey"@, "nandmu"@, 0);
    lemma_keys_differ("1blkey"@, "noinfo"@, 0);
    lemma_keys_differ("1blkey"@, "unsafe"@, 0);
    lemma_keys_differ("1blkey"@, "cpufan"@, 0);
    lemma_keys_differ("1blkey"@, "gpufan"@, 0);
    lemma_keys_differ("1blkey"@, "serial"@, 0);
    lemma_keys_differ("1blkey"@, "mfdate"@, 0);
    lemma_keys_differ("1blkey"@, "nofcrt"@, 0);
    lemma_keys_differ("cpukey"@, "dvdkey"@, 0);
    lemma_keys_differ("cpukey"@, "cygnos"@, 1);
    lemma_keys_differ("cpukey"@, "olddvd"@, 0);
    lemma_keys_differ("cpukey"@, "nandmu"@, 0);
    lemma_keys_differ("cpukey"@, "noinfo"@, 0);
    lemma_keys_differ("cpukey"@, "unsafe"@, 0);
    lemma_keys_differ("cpukey"@, "cpufan"@, 3);
    lemma_keys_differ("cpukey"@, "gpufan"@, 0);
    lemma_keys_differ("cpukey"@, "serial"@, 0);
    lemma_keys_differ("cpukey"@, "mfdate"@, 0);
    lemma_keys_differ("cpukey"@, "nofcrt"@, 0);
    lemma_keys_differ("cfldv"@, "demon"@, 0);
    lemma_keys_differ("cfldv"@, "nodvd"@, 0);
    lemma_keys_differ("cfldv"@, "noecc"@, 0);
    lemma_keys_differ("cfldv"@, "nolog"@, 0);
    lemma_keys_differ("cfldv"@, "macid"@, 0);
    lemma_keys_differ("dvdkey"@, "cygnos"@, 0);
    lemma_keys_differ("dvdkey"@, "olddvd"@, 0);
    lemma_keys_differ("dvdkey"@, "nandmu"@, 0);
    lemma_keys_differ("dvdkey"@, "noinfo"@, 0);
    lemma_keys_differ("dvdkey"@, "unsafe"@, 0);
    lemma_keys_differ("dvdkey"@, "cpufan"@, 0);
    lemma_keys_differ("dvdkey"@, "gpufan"@, 0);
    lemma_keys_differ("dvdkey"@, "serial"@, 0);
    lemma_keys_differ("dvdkey"@, "mfdate"@, 0);
    lemma_keys_differ("dvdkey"@, "nofcrt"@, 0);
    lemma_keys_differ("xellbutton"@, "smcnoeject"@, 0);
    lemma_keys_differ("xellbutton"@, "smcnoblink"@, 0);
    lemma_keys_differ("xellbutton"@, "noecdremap"@, 0);
    lemma_keys_differ("xellbutton"@, "nosecurity"@, 0);
    lemma_keys_differ("xellbutton"@, "smcnocheck"@, 0);
    lemma_keys_differ("xellbutton"@, "gameregion"@, 0);
    lemma_keys_differ("xellbutton"@, "full_image"@, 0);
    lemma_keys_differ("xellbutton2"@, "overcputemp"@, 0);
    lemma_keys_differ("xellbutton2"@, "overgputemp"@, 0);
    lemma_keys_differ("cygnos"@, "olddvd"@, 0);
    lemma_keys_differ("cygnos"@, "nandmu"@, 0);
    lemma_keys_differ("cygnos"@, "noinfo"@, 0);
    lemma_keys_differ("cygnos"@, "unsafe"@, 0);
    lemma_keys_differ("cygnos"@, "cpufan"@, 1);
    lemma_keys_differ("cygnos"@, "gpufan"@, 0);
    lemma_keys_differ("cygnos"@, "serial"@, 0);
    lemma_keys_differ("cygnos"@, "mfdate"@, 0);
    lemma_keys_differ("cygnos"@, "nofcrt"@, 0);
    lemma_keys_differ("demon"@, "nodvd"@, 0);
    lemma_keys_differ("demon"@, "noecc"@, 0);
    lemma_keys_differ("demon"@, "nolog"@, 0);
    lemma_keys_differ("demon"@, "macid"@, 0);
    lemma_keys_differ("smcnoeject"@, "smcnoblink"@, 5);
    lemma_keys_differ("smcnoeject"@, "noecdremap"@, 0);
    lemma_keys_differ("smcnoeject"@, "nosecurity"@, 0);
    lemma_keys_differ("smcnoeject"@, "smcnocheck"@, 5);
    lemma_keys_differ("smcnoeject"@, "gameregion"@, 0);
    lemma_keys_differ("smcnoeject"@, "full_image"@, 0);
    lemma_keys_differ("smcnoblink"@, "noecdremap"@, 0);
    lemma_keys_differ("smcnoblink"@, "nosecurity"@, 0);
    lemma_keys_differ("smcnoblink"@, "smcnocheck"@, 5);
    lemma_keys_differ("smcnoblink"@, "gameregion"@, 0);
    lemma_keys_differ("smcnoblink"@, "full_image"@, 0);
    lemma_keys_differ("patchsmc"@, "dualboot"@, 0);
    lemma_keys_differ("patchsmc"@, "nomobile"@, 0);
    lemma_keys_differ("patchsmc"@, "gxunsafe"@, 0);
    lemma_keys_differ("patchsmc"@, "avregion"@, 0);
    lemma_keys_differ("olddvd"@, "nandmu"@, 0);
    lemma_keys_differ("olddvd"@, "noinfo"@, 0);
    lemma_keys_differ("olddvd"@, "unsafe"@, 0);
    lemma_keys_differ("olddvd"@, "cpufan"@, 0);
    lemma_keys_differ("olddvd"@, "gpufan"@, 0);
    lemma_keys_differ("olddvd"@, "serial"@, 0);
    lemma_keys_differ("olddvd"@, "mfdate"@, 0);
    lemma_keys_differ("olddvd"@, "nofcrt"@, 0);
    lemma_keys_differ("nodvd"@, "noecc"@, 2);
    lemma_keys_differ("nodvd"@, "nolog"@, 2);
    lemma_keys_differ("nodvd"@, "macid"@, 0);
    lemma_keys_differ("dualboot"@, "nomobile"@, 0);
    lemma_keys_differ("dualboot"@, "gxunsafe"@, 0);
    lemma_keys_differ("dualboot"@, "avregion"@, 0);
    lemma_keys_differ("nomobile"@, "gxunsafe"@, 0);
    lemma_keys_differ("nomobile"@, "avregion"@, 0);
    lemma_keys_differ("noremap"@, "noenter"@, 2);
    lemma_keys_differ("noremap"@, "verbose"@, 0);
    lemma_keys_differ("noremap"@, "cputemp"@, 0);
    lemma_keys_differ("noremap"@, "gputemp"@, 0);
    lemma_keys_differ("noecdremap"@, "nosecurity"@, 2);
    lemma_keys_differ("noecdremap"@, "smcnocheck"@, 0);
    lemma_keys_differ("noecdremap"@, "gameregion"@, 0);
    lemma_keys_differ("noecdremap"@, "full_image"@, 0);
    lemma_keys_differ("nandmu"@, "noinfo"@, 1);
    lemma_keys_differ("nandmu"@, "unsafe"@, 0);
    lemma_keys_differ("nandmu"@, "cpufan"@, 0);
    lemma_keys_differ("nandmu"@, "gpufan"@, 0);
    lemma_keys_differ("nandmu"@, "serial"@, 0);
    lemma_keys_differ("nandmu"@, "mfdate"@, 0);
    lemma_keys_differ("nandmu"@, "nofcrt"@, 1);
    lemma_keys_differ("nosecurity"@, "smcnocheck"@, 0);
    lemma_keys_differ("nosecurity"@, "gameregion"@, 0);
    lemma_keys_differ("nosecurity"@, "full_image"@, 0);
    lemma_keys_differ("nosusecurity"@, "nochainpatch"@, 2);
    lemma_keys_differ("noecc"@, "nolog"@, 2);
    lemma_keys_differ("noecc"@, "macid"@, 0);
    lemma_keys_differ("noflashfs"@, "edramtemp"@, 0);
    lemma_keys_differ("noflashfs"@, "dvdregion"@, 0);
    lemma_keys_differ("noflashfs"@, "consoleid"@, 0);
    lemma_keys_differ("smcnocheck"@, "gameregion"@, 0);
    lemma_keys_differ("smcnocheck"@, "full_image"@, 0);
    lemma_keys_differ("noenter"@, "verbose"@, 0);
    lemma_keys_differ("noenter"@, "cputemp"@, 0);
    lemma_keys_differ("noenter"@, "gputemp"@, 0);
    lemma_keys_differ("nolog"@, "macid"@, 0);
    lemma_keys_differ("noinfo"@, "unsafe"@, 0);
    lemma_keys_differ("noinfo"@, "cpufan"@, 0);
    lemma_keys_differ("noinfo"@, "gpufan"@, 0);
    lemma_keys_differ("noinfo"@, "serial"@, 0);
    lemma_keys_differ("noinfo"@, "mfdate"@, 0);
    lemma_keys_differ("noinfo"@, "nofcrt"@, 2);
    lemma_keys_differ("gxunsafe"@, "avregion"@, 0);
    lemma_keys_differ("unsafe"@, "cpufan"@, 0);
    lemma_keys_differ("unsafe"@, "gpufan"@, 0);
    lemma_keys_differ("unsafe"@, "serial"@, 0);
    lemma_keys_differ("unsafe"@, "mfdate"@, 0);
    lemma_keys_differ("unsafe"@, "nofcrt"@, 0);
    lemma_keys_differ("verbose"@, "cputemp"@, 0);
    lemma_keys_differ("verbose"@, "gputemp"@, 0);
    lemma_keys_differ("cputemp"@, "gputemp"@, 0);
    lemma_keys_differ("edramtemp"@, "dvdregion"@, 0);
    lemma_keys_differ("edramtemp"@, "consoleid"@, 0);
    lemma_keys_differ("overcputemp"@, "overgputemp"@, 4);
    lemma_keys_differ("cpufan"@, "gpufan"@, 0);
    lemma_keys_differ("cpufan"@, "serial"@, 0);
    lemma_keys_differ("cpufan"@, "mfdate"@, 0);
    lemma_keys_differ("cpufan"@, "nofcrt"@, 0);
    lemma_keys_differ("gpufan"@, "serial"@, 0);
    lemma_keys_differ("gpufan"@, "mfdate"@, 0);
    lemma_keys_differ("gpufan"@, "nofcrt"@, 0);
    lemma_keys_differ("gameregion"@, "full_image"@, 0);
    lemma_keys_differ("dvdregion"@, "consoleid"@, 0);
    lemma_keys_differ("serial"@, "mfdate"@, 0);
    lemma_keys_differ("serial"@, "nofcrt"@, 0);
    lemma_keys_differ("mfdate"@, "nofcrt"@, 0);
    lemma_keys_differ("mfg"@, "xsb"@, 0);
}

/// Only its own key sets an option from `options.ini`: an option set by a
/// key is set by no other key (the key `1blkey`, and nothing else, sets
/// `keys._1blkey`; `cpukey`, and nothing else, the CPU key; `unsafe` or
/// `gxunsafe` the two unsafe flags; and so on for every option).
pub proof fn lemma_only_its_key_sets_an_option(k: Seq<char>)
    ensures
        ini_option_targets(k).contains(OptField::KeysCtype) ==> (k == "type"@),
        ini_option_targets(k).contains(OptField::KeysKey1blkey) ==> (k == "1blkey"@),
        ini_option_targets(k).contains(OptField::KeysCpukey) ==> (k == "cpukey"@),
        ini_option_targets(k).contains(OptField::KeysCfldv) ==> (k == "cfldv"@),
        ini_option_targets(k).contains(OptField::KeyvaultDvdkey) ==> (k == "dvdkey"@),
        ini_option_targets(k).contains(OptField::BuilderXellbutton) ==> (k == "xellbutton"@),
        ini_option_targets(k).contains(OptField::BuilderXellbutton2) ==> (k == "xellbutton2"@),
        ini_option_targets(k).contains(OptField::JtagCygnos) ==> (k == "cygnos"@),
        ini_option_targets(k).contains(OptField::JtagDemon) ==> (k == "demon"@),
        ini_option_targets(k).contains(OptField::JtagSmcnoeject) ==> (k == "smcnoeject"@),
        ini_option_targets(k).contains(OptField::JtagSmcnoblink) ==> (k == "smcnoblink"@),
        ini_option_targets(k).contains(OptField::JtagPatchsmc) ==> (k == "patchsmc"@),
        ini_option_targets(k).contains(OptField::JtagOlddvd) ==> (k == "olddvd"@),
        ini_option_targets(k).contains(OptField::JtagNodvd) ==> (k == "nodvd"@),
        ini_option_targets(k).contains(OptField::JtagDualboot) ==> (k == "dualboot"@),
        ini_option_targets(k).contains(OptField::CoreBuilderNomobile) ==> (k == "nomobile"@),
        ini_option_targets(k).contains(OptField::CoreBuilderNoremap) ==> (k == "noremap"@),
        ini_option_targets(k).contains(OptField::BuilderNoecdremap) ==> (k == "noecdremap"@),
        ini_option_targets(k).contains(OptField::CoreBuilderNandmu) ==> (k == "nandmu"@),
        ini_option_targets(k).contains(OptField::CoreBuilderNosecurity) ==> (k == "nosecurity"@),
        ini_option_targets(k).contains(OptField::CoreBuilderNosusecurity) ==> (k == "nosusecurity"@),
        ini_option_targets(k).contains(OptField::CoreBuilderNoecc) ==> (k == "noecc"@),
        ini_option_targets(k).contains(OptField::BuilderNoflashfs) ==> (k == "noflashfs"@),
        ini_option_targets(k).contains(OptField::CoreBuilderDualpatchslots) ==> (k == "dualpatchslots"@),
        ini_option_targets(k).contains(OptField::BuilderSmcnocheck) ==> (k == "smcnocheck"@),
        ini_option_targets(k).contains(OptField::CoreNoenter) ==> (k == "noenter"@),
        ini_option_targets(k).contains(OptField::CoreNolog) ==> (k == "nolog"@),
        ini_option_targets(k).contains(OptField::CoreNoinfo) ==> (k == "noinfo"@),
        ini_option_targets(k).contains(OptField::CoreGxunsafe) ==> (k == "gxunsafe"@ || k == "unsafe"@),
        ini_option_targets(k).contains(OptField::BuilderGxunsafe) ==> (k == "gxunsafe"@ || k == "unsafe"@),
        ini_option_targets(k).contains(OptField::CoreVerbose) ==> (k == "verbose"@),
        ini_option_targets(k).contains(OptField::BuilderVerbose) ==> (k == "verbose"@),
        ini_option_targets(k).contains(OptField::CoreBuilderNochainpatch) ==> (k == "nochainpatch"@),
        ini_option_targets(k).contains(OptField::SmcCputemp) ==> (k == "cputemp"@),
        ini_option_targets(k).contains(OptField::SmcGputemp) ==> (k == "gputemp"@),
        ini_option_targets(k).contains(OptField::SmcEdramtemp) ==> (k == "edramtemp"@),
        ini_option_targets(k).contains(OptField::SmcOvercputemp) ==> (k == "overcputemp"@),
        ini_option_targets(k).contains(OptField::SmcOvergputemp) ==> (k == "overgputemp"@),
        ini_option_targets(k).contains(OptField::SmcOveredramtemp) ==> (k == "overedramtemp"@),
        ini_option_targets(k).contains(OptField::SmcCpufan) ==> (k == "cpufan"@),
        ini_option_targets(k).contains(OptField::SmcGpufan) ==> (k == "gpufan"@),
        ini_option_targets(k).contains(OptField::KeyvaultAvregion) ==> (k == "avregion"@),
        ini_option_targets(k).contains(OptField::KeyvaultGameregion) ==> (k == "gameregion"@),
        ini_option_targets(k).contains(OptField::KeyvaultDvdregion) ==> (k == "dvdregion"@),
        ini_option_targets(k).contains(OptField::KeyvaultMacid) ==> (k == "macid"@),
        ini_option_targets(k).contains(OptField::KeyvaultSerial) ==> (k == "serial"@),
        ini_option_targets(k).contains(OptField::KeyvaultConsoleid) ==> (k == "consoleid"@),
        ini_option_targets(k).contains(OptField::KeyvaultOsig) ==> (k == "osig"@),
        ini_option_targets(k).contains(OptField::KeyvaultMfdate) ==> (k == "mfdate"@),
        ini_option_targets(k).contains(OptField::CoreBuilderNofcrt) ==> (k == "nofcrt"@),
        ini_option_targets(k).contains(OptField::CoreBuilderMfg) ==> (k == "mfg"@),
        ini_option_targets(k).contains(OptField::CoreBuilderXsb) ==> (k == "xsb"@),
        ini_option_targets(k).contains(OptField::CoreBuilderFullImage) ==> (k == "full_image"@),
{
    if k == "type"@ {
        assert(ini_option_targets(k) == seq![OptField::KeysCtype]);
        lemma_one_field_contains(ini_option_targets(k), OptField::KeysCtype);
    } else if k == "1blkey"@ {
        assert(ini_option_targets(k) == seq![OptField::KeysKey1blkey]);
        lemma_one_field_contains(ini_option_targets(k), OptField::KeysKey1blkey);
    } else if k == "cpukey"@ {
        assert(ini_option_targets(k) == seq![OptField::KeysCpukey]);
        lemma_one_field_contains(ini_option_targets(k), OptField::KeysCpukey);
    } else if k == "cfldv"@ {
        assert(ini_option_targets(k) == seq![OptField::KeysCfldv]);
        lemma_one_field_contains(ini_option_targets(k), OptField::KeysCfldv);
    } else if k == "dvdkey"@ {
        assert(ini_option_targets(k) == seq![OptField::KeyvaultDvdkey]);
        lemma_one_field_contains(ini_option_targets(k), OptField::KeyvaultDvdkey);
    } else if k == "xellbutton"@ {
        assert(ini_option_targets(k) == seq![OptField::BuilderXellbutton]);
        lemma_one_field_contains(ini_option_targets(k), OptField::BuilderXellbutton);
    } else if k == "xellbutton2"@ {
        assert(ini_option_targets(k) == seq![OptField::BuilderXellbutton2]);
        lemma_one_field_contains(ini_option_targets(k), OptField::BuilderXellbutton2);
    } else if k == "cygnos"@ {
        assert(ini_option_targets(k) == seq![OptField::JtagCygnos]);
        lemma_one_field_contains(ini_option_targets(k), OptField::JtagCygnos);
    } else if k == "demon"@ {
        assert(ini_option_targets(k) == seq![OptField::JtagDemon]);
        lemma_one_field_contains(ini_option_targets(k), OptField::JtagDemon);
    } else if k == "smcnoeject"@ {
        assert(ini_option_targets(k) == seq![OptField::JtagSmcnoeject]);
        lemma_one_field_contains(ini_option_targets(k), OptField::JtagSmcnoeject);
    } else if k == "smcnoblink"@ {
        assert(ini_option_targets(k) == seq![OptField::JtagSmcnoblink]);
        lemma_one_field_contains(ini_option_targets(k), OptField::JtagSmcnoblink);
    } else if k == "patchsmc"@ {
        assert(ini_option_targets(k) == seq![OptField::JtagPatchsmc]);
        lemma_one_field_contains(ini_option_targets(k), OptField::JtagPatchsmc);
    } else if k == "olddvd"@ {
        assert(ini_option_targets(k) == seq![OptField::JtagOlddvd]);
        lemma_one_field_contains(ini_option_targets(k), OptField::JtagOlddvd);
    } else if k == "nodvd"@ {
        assert(ini_option_targets(k) == seq![OptField::JtagNodvd]);
        lemma_one_field_contains(ini_option_targets(k), OptField::JtagNodvd);
    } else if k == "dualboot"@ {
        assert(ini_option_targets(k) == seq![OptField::JtagDualboot]);
        lemma_one_field_contains(ini_option_targets(k), OptField::JtagDualboot);
    } else if k == "nomobile"@ {
        assert(ini_option_targets(k) == seq![OptField::CoreBuilderNomobile]);
        lemma_one_field_contains(ini_option_targets(k), OptField::CoreBuilderNomobile);
    } else if k == "noremap"@ {
        assert(ini_option_targets(k) == seq![OptField::CoreBuilderNoremap]);
        lemma_one_field_contains(ini_option_targets(k), OptField::CoreBuilderNoremap);
    } else if k == "noecdremap"@ {
        assert(ini_option_targets(k) == seq![OptField::BuilderNoecdremap]);
        lemma_one_field_contains(ini_option_targets(k), OptField::BuilderNoecdremap);
    } else if k == "nandmu"@ {
        assert(ini_option_targets(k) == seq![OptField::CoreBuilderNandmu]);
        lemma_one_field_contains(ini_option_targets(k), OptField::CoreBuilderNandmu);
    } else if k == "nosecurity"@ {
        assert(ini_option_targets(k) == seq![OptField::CoreBuilderNosecurity]);
        lemma_one_field_contains(ini_option_targets(k), OptField::CoreBuilderNosecurity);
    } else if k == "nosusecurity"@ {
        assert(ini_option_targets(k) == seq![OptField::CoreBuilderNosusecurity]);
        lemma_one_field_contains(ini_option_targets(k), OptField::CoreBuilderNosusecurity);
    } else if k == "noecc"@ {
        assert(ini_option_targets(k) == seq![OptField::CoreBuilderNoecc]);
        lemma_one_field_contains(ini_option_targets(k), OptField::CoreBuilderNoecc);
    } else if k == "noflashfs"@ {
        assert(ini_option_targets(k) == seq![OptField::BuilderNoflashfs]);
        lemma_one_field_contains(ini_option_targets(k), OptField::BuilderNoflashfs);
    } else if k == "dualpatchslots"@ {
        assert(ini_option_targets(k) == seq![OptField::CoreBuilderDualpatchslots]);
        lemma_one_field_contains(ini_option_targets(k), OptField::CoreBuilderDualpatchslots);
    } else if k == "smcnocheck"@ {
        assert(ini_option_targets(k) == seq![OptField::BuilderSmcnocheck]);
        lemma_one_field_contains(ini_option_targets(k), OptField::BuilderSmcnocheck);
    } else if k == "noenter"@ {
        assert(ini_option_targets(k) == seq![OptField::CoreNoenter]);
        lemma_one_field_contains(ini_option_targets(k), OptField::CoreNoenter);
    } else if k == "nolog"@ {
        assert(ini_option_targets(k) == seq![OptField::CoreNolog]);
        lemma_one_field_contains(ini_option_targets(k), OptField::CoreNolog);
    } else if k == "noinfo"@ {
        assert(ini_option_targets(k) == seq![OptField::CoreNoinfo]);
        lemma_one_field_contains(ini_option_targets(k), OptField::CoreNoinfo);
    } else if k == "gxunsafe"@ || k == "unsafe"@ {
        assert(ini_option_targets(k) == seq![OptField::CoreGxunsafe, OptField::BuilderGxunsafe]);
        lemma_two_fields_contains(ini_option_targets(k), OptField::CoreGxunsafe, OptField::BuilderGxunsafe);
    } else if k == "verbose"@ {
        assert(ini_option_targets(k) == seq![OptField::CoreVerbose, OptField::BuilderVerbose]);
        lemma_two_fields_contains(ini_option_targets(k), OptField::CoreVerbose, OptField::BuilderVerbose);
    } else if k == "nochainpatch"@ {
        assert(ini_option_targets(k) == seq![OptField::CoreBuilderNochainpatch]);
        lemma_one_field_contains(ini_option_targets(k), OptField::CoreBuilderNochainpatch);
    } else if k == "cputemp"@ {
        assert(ini_option_targets(k) == seq![OptField::SmcCputemp]);
        lemma_one_field_contains(ini_option_targets(k), OptField::SmcCputemp);
    } else if k == "gputemp"@ {
        assert(ini_option_targets(k) == seq![OptField::SmcGputemp]);
        lemma_one_field_contains(ini_option_targets(k), OptField::SmcGputemp);
    } else if k == "edramtemp"@ {
        assert(ini_option_targets(k) == seq![OptField::SmcEdramtemp]);
        lemma_one_field_contains(ini_option_targets(k), OptField::SmcEdramtemp);
    } else if k == "overcputemp"@ {
        assert(ini_option_targets(k) == seq![OptField::SmcOvercputemp]);
        lemma_one_field_contains(ini_option_targets(k), OptField::SmcOvercputemp);
    } else if k == "overgputemp"@ {
        assert(ini_option_targets(k) == seq![OptField::SmcOvergputemp]);
        lemma_one_field_contains(ini_option_targets(k), OptField::SmcOvergputemp);
    } else if k == "overedramtemp"@ {
        assert(ini_option_targets(k) == seq![OptField::SmcOveredramtemp]);
        lemma_one_field_contains(ini_option_targets(k), OptField::SmcOveredramtemp);
    } else if k == "cpufan"@ {
        assert(ini_option_targets(k) == seq![OptField::SmcCpufan]);
        lemma_one_field_contains(ini_option_targets(k), OptField::SmcCpufan);
    } else if k == "gpufan"@ {
        assert(ini_option_targets(k) == seq![OptField::SmcGpufan]);
        lemma_one_field_contains(ini_option_targets(k), OptField::SmcGpufan);
    } else if k == "avregion"@ {
        assert(ini_option_targets(k) == seq![OptField::KeyvaultAvregion]);
        lemma_one_field_contains(ini_option_targets(k), OptField::KeyvaultAvregion);
    } else if k == "gameregion"@ {
        assert(ini_option_targets(k) == seq![OptField::KeyvaultGameregion]);
        lemma_one_field_contains(ini_option_targets(k), OptField::KeyvaultGameregion);
    } else if k == "dvdregion"@ {
        assert(ini_option_targets(k) == seq![OptField::KeyvaultDvdregion]);
        lemma_one_field_contains(ini_option_targets(k), OptField::KeyvaultDvdregion);
    } else if k == "macid"@ {
        assert(ini_option_targets(k) == seq![OptField::KeyvaultMacid]);
        lemma_one_field_contains(ini_option_targets(k), OptField::KeyvaultMacid);
    } else if k == "serial"@ {
        assert(ini_option_targets(k) == seq![OptField::KeyvaultSerial]);
        lemma_one_field_contains(ini_option_targets(k), OptField::KeyvaultSerial);
    } else if k == "consoleid"@ {
        assert(ini_option_targets(k) == seq![OptField::KeyvaultConsoleid]);
        lemma_one_field_contains(ini_option_targets(k), OptField::KeyvaultConsoleid);
    } else if k == "osig"@ {
        assert(ini_option_targets(k) == seq![OptField::KeyvaultOsig]);
        lemma_one_field_contains(ini_option_targets(k), OptField::KeyvaultOsig);
    } else if k == "mfdate"@ {
        assert(ini_option_targets(k) == seq![OptField::KeyvaultMfdate]);
        lemma_one_field_contains(ini_option_targets(k), OptField::KeyvaultMfdate);
    } else if k == "nofcrt"@ {
        assert(ini_option_targets(k) == seq![OptField::CoreBuilderNofcrt]);
        lemma_one_field_contains(ini_option_targets(k), OptField::CoreBuilderNofcrt);
    } else if k == "mfg"@ {
        assert(ini_option_targets(k) == seq![OptField::CoreBuilderMfg]);
        lemma_one_field_contains(ini_option_targets(k), OptField::CoreBuilderMfg);
    } else if k == "xsb"@ {
        assert(ini_option_targets(k) == seq![OptField::CoreBuilderXsb]);
        lemma_one_field_contains(ini_option_targets(k), OptField::CoreBuilderXsb);
    } else if k == "full_image"@ {
        assert(ini_option_targets(k) == seq![OptField::CoreBuilderFullImage]);
        lemma_one_field_contains(ini_option_targets(k), OptField::CoreBuilderFullImage);
    } else {
        assert(ini_option_targets(k) == Seq::<OptField>::empty());
    }
}

fn set_option_targets_of(k: &[char]) -> (r: Vec<OptField>)
    ensures
        r@ == set_option_targets(k@),
{
    let n = k.len();
    assert(k@.subrange(0, n as int) =~= k@);
    if range_eq(k, 0, n, &str_chars("region")) || range_eq(k, 0, n, &str_chars("avregion")) {
        return vec![OptField::KeyvaultAvregion];
    }
    if range_eq(k, 0, n, &str_chars("gameregion")) {
        return vec![OptField::KeyvaultGameregion];
    }
    if range_eq(k, 0, n, &str_chars("dvdregion")) {
        return vec![OptField::KeyvaultDvdregion];
    }
    if range_eq(k, 0, n, &str_chars("unsafe")) || range_eq(k, 0, n, &str_chars("gxunsafe")) {
        return vec![OptField::CoreGxunsafe, OptField::BuilderGxunsafe];
    }
    if range_eq(k, 0, n, &str_chars("verbose")) {
        return vec![OptField::CoreVerbose, OptField::BuilderVerbose];
    }
    if range_eq(k, 0, n, &str_chars("nomobile")) {
        return vec![OptField::CoreBuilderNomobile];
    }
    if range_eq(k, 0, n, &str_chars("noremap")) {
        return vec![OptField::CoreBuilderNoremap];
    }
    if range_eq(k, 0, n, &str_chars("nandmu")) {
        return vec![OptField::CoreBuilderNandmu];
    }
    if range_eq(k, 0, n, &str_chars("cputemp")) {
        return vec![OptField::SmcCputemp];
    }
    if range_eq(k, 0, n, &str_chars("gputemp")) {
        return vec![OptField::SmcGputemp];
    }
    if range_eq(k, 0, n, &str_chars("edramtemp")) {
        return vec![OptField::SmcEdramtemp];
    }
    if range_eq(k, 0, n, &str_chars("overcputemp")) {
        return vec![OptField::SmcOvercputemp];
    }
    if range_eq(k, 0, n, &str_chars("overgputemp")) {
        return vec![OptField::SmcOvergputemp];
    }
    if range_eq(k, 0, n, &str_chars("overedramtemp")) {
        return vec![OptField::SmcOveredramtemp];
    }
    if range_eq(k, 0, n, &str_chars("cpufan")) {
        return vec![OptField::SmcCpufan];
    }
    if range_eq(k, 0, n, &str_chars("gpufan")) {
        return vec![OptField::SmcGpufan];
    }
    if range_eq(k, 0, n, &str_chars("macid")) || range_eq(k, 0, n, &str_chars("mac")) {
        return vec![OptField::KeyvaultMacid];
    }
    if range_eq(k, 0, n, &str_chars("dvdkey")) {
        return vec![OptField::KeyvaultDvdkey];
    }
    if range_eq(k, 0, n, &str_chars("cfldv")) {
        return vec![OptField::KeysCfldv];
    }
    if range_eq(k, 0, n, &str_chars("serial")) {
        return vec![OptField::KeyvaultSerial];
    }
    if range_eq(k, 0, n, &str_chars("consoleid")) {
        return vec![OptField::KeyvaultConsoleid];
    }
    if range_eq(k, 0, n, &str_chars("osig")) {
        return vec![OptField::KeyvaultOsig];
    }
    if range_eq(k, 0, n, &str_chars("mfdate")) {
        return vec![OptField::KeyvaultMfdate];
    }
    if range_eq(k, 0, n, &str_chars("nofcrt")) {
        return vec![OptField::CoreBuilderNofcrt];
    }
    if range_eq(k, 0, n, &str_chars("xellbutton")) {
        return vec![OptField::BuilderXellbutton];
    }
    if range_eq(k, 0, n, &str_chars("xellbutton2")) {
        return vec![OptField::BuilderXellbutton2];
    }
    if range_eq(k, 0, n, &str_chars("cygnos")) {
        return vec![OptField::JtagCygnos];
    }
    if range_eq(k, 0, n, &str_chars("demon")) {
        return vec![OptField::JtagDemon];
    }
    if range_eq(k, 0, n, &str_chars("smcnoeject")) {
        return vec![OptField::JtagSmcnoeject];
    }
    if range_eq(k, 0, n, &str_chars("smcnoblink")) {
        return vec![OptField::JtagSmcnoblink];
    }
    if range_eq(k, 0, n, &str_chars("patchsmc")) {
        return vec![OptField::JtagPatchsmc];
    }
    if range_eq(k, 0, n, &str_chars("olddvd")) {
        return vec![OptField::JtagOlddvd];
    }
    if range_eq(k, 0, n, &str_chars("nodvd")) {
        return vec![OptField::JtagNodvd];
    }
    if range_eq(k, 0, n, &str_chars("dualboot")) {
        return vec![OptField::JtagDualboot];
    }
    if range_eq(k, 0, n, &str_chars("dualpatchslots")) {
        return vec![OptField::CoreBuilderDualpatchslots];
    }
    if range_eq(k, 0, n, &str_chars("nolog")) {
        return vec![OptField::CoreNolog];
    }
    if range_eq(k, 0, n, &str_chars("noinfo")) {
        return vec![OptField::CoreNoinfo];
    }
    if range_eq(k, 0, n, &str_chars("noenter")) {
        return vec![OptField::CoreNoenter];
    }
    if range_eq(k, 0, n, &str_chars("noecc")) {
        return vec![OptField::CoreBuilderNoecc];
    }
    if range_eq(k, 0, n, &str_chars("noecdremap")) {
        return vec![OptField::BuilderNoecdremap];
    }
    if range_eq(k, 0, n, &str_chars("smcnocheck")) {
        return vec![OptField::BuilderSmcnocheck];
    }
    if range_eq(k, 0, n, &str_chars("nosecurity")) {
        return vec![OptField::CoreBuilderNosecurity];
    }
    if range_eq(k, 0, n, &str_chars("nosusecurity")) {
        return vec![OptField::CoreBuilderNosusecurity];
    }
    if range_eq(k, 0, n, &str_chars("nochainpatch")) {
        return vec![OptField::CoreBuilderNochainpatch];
    }
    if range_eq(k, 0, n, &str_chars("mfg")) {
        return vec![OptField::CoreBuilderMfg];
    }
    if range_eq(k, 0, n, &str_chars("xsb")) {
        return vec![OptField::CoreBuilderXsb];
    }
    if range_eq(k, 0, n, &str_chars("full_image")) {
        return vec![OptField::CoreBuilderFullImage];
    }
    Vec::new()
}

fn ini_option_targets_of(k: &[char]) -> (r: Vec<OptField>)
    ensures
        r@ == ini_option_targets(k@),
{
    let n = k.len();
    assert(k@.subrange(0, n as int) =~= k@);
    if range_eq(k, 0, n, &str_chars("type")) {
        return vec![OptField::KeysCtype];
    }
    if range_eq(k, 0, n, &str_chars("1blkey")) {
        return vec![OptField::KeysKey1blkey];
    }
    if range_eq(k, 0, n, &str_chars("cpukey")) {
        return vec![OptField::KeysCpukey];
    }
    if range_eq(k, 0, n, &str_chars("cfldv")) {
        return vec![OptField::KeysCfldv];
    }
    if range_eq(k, 0, n, &str_chars("dvdkey")) {
        return vec![OptField::KeyvaultDvdkey];
    }
    if range_eq(k, 0, n, &str_chars("xellbutton")) {
        return vec![OptField::BuilderXellbutton];
    }
    if range_eq(k, 0, n, &str_chars("xellbutton2")) {
        return vec![OptField::BuilderXellbutton2];
    }
    if range_eq(k, 0, n, &str_chars("cygnos")) {
        return vec![OptField::JtagCygnos];
    }
    if range_eq(k, 0, n, &str_chars("demon")) {
        return vec![OptField::JtagDemon];
    }
    if range_eq(k, 0, n, &str_chars("smcnoeject")) {
        return vec![OptField::JtagSmcnoeject];
    }
    if range_eq(k, 0, n, &str_chars("smcnoblink")) {
        return vec![OptField::JtagSmcnoblink];
    }
    if range_eq(k, 0, n, &str_chars("patchsmc")) {
        return vec![OptField::JtagPatchsmc];
    }
    if range_eq(k, 0, n, &str_chars("olddvd")) {
        return vec![OptField::JtagOlddvd];
    }
    if range_eq(k, 0, n, &str_chars("nodvd")) {
        return vec![OptField::JtagNodvd];
    }
    if range_eq(k, 0, n, &str_chars("dualboot")) {
        return vec![OptField::JtagDualboot];
    }
    if range_eq(k, 0, n, &str_chars("nomobile")) {
        return vec![OptField::CoreBuilderNomobile];
    }
    if range_eq(k, 0, n, &str_chars("noremap")) {
        return vec![OptField::CoreBuilderNoremap];
    }
    if range_eq(k, 0, n, &str_chars("noecdremap")) {
        return vec![OptField::BuilderNoecdremap];
    }
    if range_eq(k, 0, n, &str_chars("nandmu")) {
        return vec![OptField::CoreBuilderNandmu];
    }
    if range_eq(k, 0, n, &str_chars("nosecurity")) {
        return vec![OptField::CoreBuilderNosecurity];
    }
    if range_eq(k, 0, n, &str_chars("nosusecurity")) {
        return vec![OptField::CoreBuilderNosusecurity];
    }
    if range_eq(k, 0, n, &str_chars("noecc")) {
        return vec![OptField::CoreBuilderNoecc];
    }
    if range_eq(k, 0, n, &str_chars("noflashfs")) {
        return vec![OptField::BuilderNoflashfs];
    }
    if range_eq(k, 0, n, &str_chars("dualpatchslots")) {
        return vec![OptField::CoreBuilderDualpatchslots];
    }
    if range_eq(k, 0, n, &str_chars("smcnocheck")) {
        return vec![OptField::BuilderSmcnocheck];
    }
    if range_eq(k, 0, n, &str_chars("noenter")) {
        return vec![OptField::CoreNoenter];
    }
    if range_eq(k, 0, n, &str_chars("nolog")) {
        return vec![OptField::CoreNolog];
    }
    if range_eq(k, 0, n, &str_chars("noinfo")) {
        return vec![OptField::CoreNoinfo];
    }
    if range_eq(k, 0, n, &str_chars("gxunsafe")) || range_eq(k, 0, n, &str_chars("unsafe")) {
        return vec![OptField::CoreGxunsafe, OptField::BuilderGxunsafe];
    }
    if range_eq(k, 0, n, &str_chars("verbose")) {
        return vec![OptField::CoreVerbose, OptField::BuilderVerbose];
    }
    if range_eq(k, 0, n, &str_chars("nochainpatch")) {
        return vec![OptField::CoreBuilderNochainpatch];
    }
    if range_eq(k, 0, n, &str_chars("cputemp")) {
        return vec![OptField::SmcCputemp];
    }
    if range_eq(k, 0, n, &str_chars("gputemp")) {
        return vec![OptField::SmcGputemp];
    }
    if range_eq(k, 0, n, &str_chars("edramtemp")) {
        return vec![OptField::SmcEdramtemp];
    }
    if range_eq(k, 0, n, &str_chars("overcputemp")) {
        return vec![OptField::SmcOvercputemp];
    }
    if range_eq(k, 0, n, &str_chars("overgputemp")) {
        return vec![OptField::SmcOvergputemp];
    }
    if range_eq(k, 0, n, &str_chars("overedramtemp")) {
        return vec![OptField::SmcOveredramtemp];
    }
    if range_eq(k, 0, n, &str_chars("cpufan")) {
        return vec![OptField::SmcCpufan];
    }
    if range_eq(k, 0, n, &str_chars("gpufan")) {
        return vec![OptField::SmcGpufan];
    }
    if range_eq(k, 0, n, &str_chars("avregion")) {
        return vec![OptField::KeyvaultAvregion];
    }
    if range_eq(k, 0, n, &str_chars("gameregion")) {
        return vec![OptField::KeyvaultGameregion];
    }
    if range_eq(k, 0, n, &str_chars("dvdregion")) {
        return vec![OptField::KeyvaultDvdregion];
    }
    if range_eq(k, 0, n, &str_chars("macid")) {
        return vec![OptField::KeyvaultMacid];
    }
    if range_eq(k, 0, n, &str_chars("serial")) {
        return vec![OptField::KeyvaultSerial];
    }
    if range_eq(k, 0, n, &str_chars("consoleid")) {
        return vec![OptField::KeyvaultConsoleid];
    }
    if range_eq(k, 0, n, &str_chars("osig")) {
        return vec![OptField::KeyvaultOsig];
    }
    if range_eq(k, 0, n, &str_chars("mfdate")) {
        return vec![OptField::KeyvaultMfdate];
    }
    if range_eq(k, 0, n, &str_chars("nofcrt")) {
        return vec![OptField::CoreBuilderNofcrt];
    }
    if range_eq(k, 0, n, &str_chars("mfg")) {
        return vec![OptField::CoreBuilderMfg];
    }
    if range_eq(k, 0, n, &str_chars("xsb")) {
        return vec![OptField::CoreBuilderXsb];
    }
    if range_eq(k, 0, n, &str_chars("full_image")) {
        return vec![OptField::CoreBuilderFullImage];
    }
    Vec::new()
}

/// Stores `newer` in `slot` when it is set.
fn pick_into<T>(slot: &mut Option<T>, newer: Option<T>)
    ensures
        *final(slot) == pick(newer, *old(slot)),
{
    if let Some(v) = newer {
        *slot = Some(v);
    }
}

impl OptionsIni {
    /// Options with nothing set.
    pub fn new() -> (r: Self)
        ensures
            r == empty_options(),
    {
        OptionsIni {
            keys: GxBuildKeys {
                ctype: None,
                _1blkey: None,
                cpukey: None,
                cfldv: None,
            },
            core: CoreOptions {
                noenter: None,
                nolog: None,
                noinfo: None,
                gxunsafe: None,
                verbose: None,
            },
            core_builder: CoreBuilderOptions {
                nosecurity: None,
                nosusecurity: None,
                noremap: None,
                nandmu: None,
                nochainpatch: None,
                nofcrt: None,
                dualpatchslots: None,
                mfg: None,
                xsb: None,
                nomobile: None,
                full_image: None,
                noecc: None,
            },
            builder: BuilderOptions {
                gxunsafe: None,
                verbose: None,
                noflashfs: None,
                xellbutton: None,
                xellbutton2: None,
                noecdremap: None,
                smcnocheck: None,
            },
            jtag: JtagOptions {
                jtag_syscall: None,
                jtag_pairing_2bl: None,
                cygnos: None,
                demon: None,
                smcnoeject: None,
                smcnoblink: None,
                patchsmc: None,
                olddvd: None,
                nodvd: None,
                dualboot: None,
            },
            smc_config: SmcConfigOptions {
                cputemp: None,
                gputemp: None,
                edramtemp: None,
                overcputemp: None,
                overgputemp: None,
                overedramtemp: None,
                cpufan: None,
                gpufan: None,
            },
            keyvault: KeyvaultOptions {
                avregion: None,
                gameregion: None,
                dvdregion: None,
                macid: None,
                serial: None,
                consoleid: None,
                osig: None,
                mfdate: None,
                dvdkey: None,
            },
        }
    }

    /// Overrides every option that `other` sets.
    pub fn merge(&mut self, other: OptionsIni)
        ensures
            *final(self) == merged(*old(self), other),
    {
        pick_into(&mut self.keys.ctype, other.keys.ctype);
        pick_into(&mut self.keys._1blkey, other.keys._1blkey);
        pick_into(&mut self.keys.cpukey, other.keys.cpukey);
        pick_into(&mut self.keys.cfldv, other.keys.cfldv);
        pick_into(&mut self.core.noenter, other.core.noenter);
        pick_into(&mut self.core.nolog, other.core.nolog);
        pick_into(&mut self.core.noinfo, other.core.noinfo);
        pick_into(&mut self.core.gxunsafe, other.core.gxunsafe);
        pick_into(&mut self.core.verbose, other.core.verbose);
        pick_into(&mut self.core_builder.nosecurity, other.core_builder.nosecurity);
        pick_into(&mut self.core_builder.nosusecurity, other.core_builder.nosusecurity);
        pick_into(&mut self.core_builder.noremap, other.core_builder.noremap);
        pick_into(&mut self.core_builder.nandmu, other.core_builder.nandmu);
        pick_into(&mut self.core_builder.nochainpatch, other.core_builder.nochainpatch);
        pick_into(&mut self.core_builder.nofcrt, other.core_builder.nofcrt);
        pick_into(&mut self.core_builder.dualpatchslots, other.core_builder.dualpatchslots);
        pick_into(&mut self.core_builder.mfg, other.core_builder.mfg);
        pick_into(&mut self.core_builder.xsb, other.core_builder.xsb);
        pick_into(&mut self.core_builder.nomobile, other.core_builder.nomobile);
        pick_into(&mut self.core_builder.full_image, other.core_builder.full_image);
        pick_into(&mut self.core_builder.noecc, other.core_builder.noecc);
        pick_into(&mut self.builder.gxunsafe, other.builder.gxunsafe);
        pick_into(&mut self.builder.verbose, other.builder.verbose);
        pick_into(&mut self.builder.noflashfs, other.builder.noflashfs);
        pick_into(&mut self.builder.xellbutton, other.builder.xellbutton);
        pick_into(&mut self.builder.xellbutton2, other.builder.xellbutton2);
        pick_into(&mut self.builder.noecdremap, other.builder.noecdremap);
        pick_into(&mut self.builder.smcnocheck, other.builder.smcnocheck);
        pick_into(&mut self.jtag.jtag_syscall, other.jtag.jtag_syscall);
        pick_into(&mut self.jtag.jtag_pairing_2bl, other.jtag.jtag_pairing_2bl);
        pick_into(&mut self.jtag.cygnos, other.jtag.cygnos);
        pick_into(&mut self.jtag.demon, other.jtag.demon);
        pick_into(&mut self.jtag.smcnoeject, other.jtag.smcnoeject);
        pick_into(&mut self.jtag.smcnoblink, other.jtag.smcnoblink);
        pick_into(&mut self.jtag.patchsmc, other.jtag.patchsmc);
        pick_into(&mut self.jtag.olddvd, other.jtag.olddvd);
        pick_into(&mut self.jtag.nodvd, other.jtag.nodvd);
        pick_into(&mut self.jtag.dualboot, other.jtag.dualboot);
        pick_into(&mut self.smc_config.cputemp, other.smc_config.cputemp);
        pick_into(&mut self.smc_config.gputemp, other.smc_config.gputemp);
        pick_into(&mut self.smc_config.edramtemp, other.smc_config.edramtemp);
        pick_into(&mut self.smc_config.overcputemp, other.smc_config.overcputemp);
        pick_into(&mut self.smc_config.overgputemp, other.smc_config.overgputemp);
        pick_into(&mut self.smc_config.overedramtemp, other.smc_config.overedramtemp);
        pick_into(&mut self.smc_config.cpufan, other.smc_config.cpufan);
        pick_into(&mut self.smc_config.gpufan, other.smc_config.gpufan);
        pick_into(&mut self.keyvault.avregion, other.keyvault.avregion);
        pick_into(&mut self.keyvault.gameregion, other.keyvault.gameregion);
        pick_into(&mut self.keyvault.dvdregion, other.keyvault.dvdregion);
        pick_into(&mut self.keyvault.macid, other.keyvault.macid);
        pick_into(&mut self.keyvault.serial, other.keyvault.serial);
        pick_into(&mut self.keyvault.consoleid, other.keyvault.consoleid);
        pick_into(&mut self.keyvault.osig, other.keyvault.osig);
        pick_into(&mut self.keyvault.mfdate, other.keyvault.mfdate);
        pick_into(&mut self.keyvault.dvdkey, other.keyvault.dvdkey);
    }

    /// Sets one option from an assignment: the text for text options, the flag
    /// for flag options.
    #[verifier::spinoff_prover]
    #[verifier::rlimit(60)]
    pub fn apply_field(&mut self, f: OptField, text: &String, flag: bool)
        ensures
            forall|g: OptField|
                #[trigger] field_value(*final(self), g) == if g == f {
                    if is_text_field(f) {
                        (None, Some(text@))
                    } else {
                        (Some(flag), None)
                    }
                } else {
                    field_value(*old(self), g)
                },
            final(self).jtag.jtag_syscall == old(self).jtag.jtag_syscall,
            final(self).jtag.jtag_pairing_2bl == old(self).jtag.jtag_pairing_2bl,
    {
        match f {
            OptField::KeysCtype => self.keys.ctype = Some(text.clone()),
            OptField::KeysKey1blkey => self.keys._1blkey = Some(text.clone()),
            OptField::KeysCpukey => self.keys.cpukey = Some(text.clone()),
            OptField::KeysCfldv => self.keys.cfldv = Some(text.clone()),
            OptField::CoreNoenter => self.core.noenter = Some(flag),
            OptField::CoreNolog => self.core.nolog = Some(flag),
            OptField::CoreNoinfo => self.core.noinfo = Some(flag),
            OptField::CoreGxunsafe => self.core.gxunsafe = Some(flag),
            OptField::CoreVerbose => self.core.verbose = Some(flag),
            OptField::CoreBuilderNosecurity => self.core_builder.nosecurity = Some(flag),
            OptField::CoreBuilderNosusecurity => self.core_builder.nosusecurity = Some(flag),
            OptField::CoreBuilderNoremap => self.core_builder.noremap = Some(flag),
            OptField::CoreBuilderNandmu => self.core_builder.nandmu = Some(flag),
            OptField::CoreBuilderNochainpatch => self.core_builder.nochainpatch = Some(flag),
            OptField::CoreBuilderNofcrt => self.core_builder.nofcrt = Some(flag),
            OptField::CoreBuilderDualpatchslots => self.core_builder.dualpatchslots = Some(flag),
            OptField::CoreBuilderMfg => self.core_builder.mfg = Some(flag),
            OptField::CoreBuilderXsb => self.core_builder.xsb = Some(flag),
            OptField::CoreBuilderNomobile => self.core_builder.nomobile = Some(flag),
            OptField::CoreBuilderFullImage => self.core_builder.full_image = Some(flag),
            OptField::CoreBuilderNoecc => self.core_builder.noecc = Some(flag),
            OptField::BuilderGxunsafe => self.builder.gxunsafe = Some(flag),
            OptField::BuilderVerbose => self.builder.verbose = Some(flag),
            OptField::BuilderNoflashfs => self.builder.noflashfs = Some(flag),
            OptField::BuilderXellbutton => self.builder.xellbutton = Some(text.clone()),
            OptField::BuilderXellbutton2 => self.builder.xellbutton2 = Some(text.clone()),
            OptField::BuilderNoecdremap => self.builder.noecdremap = Some(flag),
            OptField::BuilderSmcnocheck => self.builder.smcnocheck = Some(flag),
            OptField::JtagCygnos => self.jtag.cygnos = Some(flag),
            OptField::JtagDemon => self.jtag.demon = Some(flag),
            OptField::JtagSmcnoeject => self.jtag.smcnoeject = Some(flag),
            OptField::JtagSmcnoblink => self.jtag.smcnoblink = Some(flag),
            OptField::JtagPatchsmc => self.jtag.patchsmc = Some(flag),
            OptField::JtagOlddvd => self.jtag.olddvd = Some(flag),
            OptField::JtagNodvd => self.jtag.nodvd = Some(flag),
            OptField::JtagDualboot => self.jtag.dualboot = Some(flag),
            OptField::SmcCputemp => self.smc_config.cputemp = Some(text.clone()),
            OptField::SmcGputemp => self.smc_config.gputemp = Some(text.clone()),
            OptField::SmcEdramtemp => self.smc_config.edramtemp = Some(text.clone()),
            OptField::SmcOvercputemp => self.smc_config.overcputemp = Some(text.clone()),
            OptField::SmcOvergputemp => self.smc_config.overgputemp = Some(text.clone()),
            OptField::SmcOveredramtemp => self.smc_config.overedramtemp = Some(text.clone()),
            OptField::SmcCpufan => self.smc_config.cpufan = Some(text.clone()),
            OptField::SmcGpufan => self.smc_config.gpufan = Some(text.clone()),
            OptField::KeyvaultAvregion => self.keyvault.avregion = Some(text.clone()),
            OptField::KeyvaultGameregion => self.keyvault.gameregion = Some(text.clone()),
            OptField::KeyvaultDvdregion => self.keyvault.dvdregion = Some(text.clone()),
            OptField::KeyvaultMacid => self.keyvault.macid = Some(text.clone()),
            OptField::KeyvaultSerial => self.keyvault.serial = Some(text.clone()),
            OptField::KeyvaultConsoleid => self.keyvault.consoleid = Some(text.clone()),
            OptField::KeyvaultOsig => self.keyvault.osig = Some(text.clone()),
            OptField::KeyvaultMfdate => self.keyvault.mfdate = Some(text.clone()),
            OptField::KeyvaultDvdkey => self.keyvault.dvdkey = Some(text.clone()),
        }
    }
}

/// Merging in an empty set of options changes nothing.
pub proof fn lemma_merge_empty_right(a: OptionsIni)
    ensures
        merged(a, empty_options()) == a,
{
}

/// Merging options into an empty set gives those options.
pub proof fn lemma_merge_empty_left(b: OptionsIni)
    ensures
        merged(empty_options(), b) == b,
{
}

/// Merging is associative: merging `b` then `c` equals merging their merge.
pub proof fn lemma_merge_assoc(a: OptionsIni, b: OptionsIni, c: OptionsIni)
    ensures
        merged(merged(a, b), c) == merged(a, merged(b, c)),
{
    lemma_merge_keys_assoc(a.keys, b.keys, c.keys);
    lemma_merge_core_assoc(a.core, b.core, c.core);
    lemma_merge_core_builder_assoc(a.core_builder, b.core_builder, c.core_builder);
    lemma_merge_builder_assoc(a.builder, b.builder, c.builder);
    lemma_merge_jtag_assoc(a.jtag, b.jtag, c.jtag);
    lemma_merge_smc_config_assoc(a.smc_config, b.smc_config, c.smc_config);
    lemma_merge_keyvault_assoc(a.keyvault, b.keyvault, c.keyvault);
}

/// Merging options with themselves changes nothing.
pub proof fn lemma_merge_idempotent(a: OptionsIni)
    ensures
        merged(a, a) == a,
{
}

/// Options lines of a text: split at line feeds (carriage returns are trimmed
/// with the rest of the white space, and an empty last line is skipped).
pub open spec fn text_lines(content: Seq<char>) -> Seq<Seq<char>> {
    split(content, "\n"@)
}

/// Blank and comment lines (`;` or `#`) are skipped.
pub open spec fn is_skipped_line(t: Seq<char>) -> bool {
    t.len() == 0 || t[0] == ';' || t[0] == '#'
}

pub open spec fn is_section_header(t: Seq<char>) -> bool {
    t.len() > 0 && t[0] == '[' && t.last() == ']'
}

/// A key or value: `;` stripped from its end, then trimmed.
pub open spec fn option_part(p: Seq<char>) -> Seq<char> {
    trim(trim_end_char(p, ';'))
}

/// The options a line sets and its value, when it is a `key = value` line
/// (exactly one " = ").
pub open spec fn option_assignment(line: Seq<char>) -> Option<(Seq<OptField>, Seq<char>)> {
    let t = trim(line);
    if is_skipped_line(t) || is_section_header(t) {
        None
    } else {
        let parts = split(t, " = "@);
        if parts.len() == 2 {
            Some((ini_option_targets(unicode_lowercase(option_part(parts[0]))), option_part(parts[1])))
        } else {
            None
        }
    }
}

pub open spec fn is_header_line(line: Seq<char>) -> bool {
    let t = trim(line);
    !is_skipped_line(t) && is_section_header(t)
}

/// Value of option `f` after the first `n` lines: set by the last of them
/// that assigns it.
pub open spec fn last_write(lines: Seq<Seq<char>>, f: OptField, n: int) -> (Option<bool>, Option<Seq<char>>)
    decreases n,
{
    if n <= 0 {
        (None, None)
    } else {
        match option_assignment(lines[n - 1]) {
            Some((ts, v)) => if ts.contains(f) {
                written_value(f, v)
            } else {
                last_write(lines, f, n - 1)
            },
            None => last_write(lines, f, n - 1),
        }
    }
}

impl OptionsIni {
    fn apply_fields(&mut self, targets: &Vec<OptField>, text: &String, flag: bool)
        ensures
            forall|g: OptField|
                #[trigger] field_value(*final(self), g) == if targets@.contains(g) {
                    if is_text_field(g) {
                        (None, Some(text@))
                    } else {
                        (Some(flag), None)
                    }
                } else {
                    field_value(*old(self), g)
                },
            final(self).jtag.jtag_syscall == old(self).jtag.jtag_syscall,
            final(self).jtag.jtag_pairing_2bl == old(self).jtag.jtag_pairing_2bl,
    {
        let n = targets.len();
        let mut i: usize = 0;
        while i < n
            invariant
                n == targets@.len(),
                i <= n,
                forall|g: OptField|
                    #[trigger] field_value(*self, g) == if targets@.subrange(0, i as int).contains(g) {
                        if is_text_field(g) {
                            (None, Some(text@))
                        } else {
                            (Some(flag), None)
                        }
                    } else {
                        field_value(*old(self), g)
                    },
                self.jtag.jtag_syscall == old(self).jtag.jtag_syscall,
                self.jtag.jtag_pairing_2bl == old(self).jtag.jtag_pairing_2bl,
            decreases n - i,
        {
            let ghost before = *self;
            self.apply_field(targets[i], text, flag);
            assert forall|g: OptField| #[trigger] targets@.subrange(0, i as int + 1).contains(g) == (targets@.subrange(
                0,
                i as int,
            ).contains(g) || g == targets@[i as int]) by {
                if targets@.subrange(0, i as int + 1).contains(g) {
                    let q = choose|q: int| 0 <= q < i + 1 && #[trigger] targets@.subrange(0, i as int + 1)[q] == g;
                    if q < i {
                        assert(targets@.subrange(0, i as int)[q] == g);
                    }
                }
                if g == targets@[i as int] {
                    assert(targets@.subrange(0, i as int + 1)[i as int] == g);
                }
                if targets@.subrange(0, i as int).contains(g) {
                    let q = choose|q: int| 0 <= q < i && #[trigger] targets@.subrange(0, i as int)[q] == g;
                    assert(targets@.subrange(0, i as int + 1)[q] == g);
                }
            }
            i += 1;
        }
        assert(targets@.subrange(0, n as int) =~= targets@);
    }

    /// Sets one option by its `set_option` name (case-insensitive; `region`
    /// and `mac` are aliases). Flags take the value `true` in any ASCII case as
    /// set and anything else as unset; unknown keys change nothing.
    pub fn set_option(&mut self, key: &str, value: &str)
        ensures
            forall|g: OptField|
                #[trigger] field_value(*final(self), g) == if set_option_targets(unicode_lowercase(key@)).contains(g) {
                    written_value(g, value@)
                } else {
                    field_value(*old(self), g)
                },
            final(self).jtag.jtag_syscall == old(self).jtag.jtag_syscall,
            final(self).jtag.jtag_pairing_2bl == old(self).jtag.jtag_pairing_2bl,
    {
        let kc = str_chars(key);
        let lk = to_lowercase(kc.as_slice());
        let targets = set_option_targets_of(lk.as_slice());
        let vc = str_chars(value);
        let t = str_chars("true");
        let flag = range_eq_ignore_ascii_case(vc.as_slice(), 0, vc.len(), t.as_slice());
        assert(vc@.subrange(0, vc@.len() as int) =~= vc@);
        let text = value.to_owned();
        self.apply_fields(&targets, &text, flag);
    }
}

/// Applies one line `v[a..b]` of an options text; false for a section header.
fn apply_option_line(o: &mut OptionsIni, v: &[char], a: usize, b: usize) -> (r: bool)
    requires
        a <= b <= v@.len(),
    ensures
        r == !is_header_line(v@.subrange(a as int, b as int)),
        r ==> forall|g: OptField|
            #[trigger] field_value(*final(o), g) == match option_assignment(v@.subrange(a as int, b as int)) {
                Some((ts, val)) => if ts.contains(g) {
                    written_value(g, val)
                } else {
                    field_value(*old(o), g)
                },
                None => field_value(*old(o), g),
            },
        r ==> final(o).jtag.jtag_syscall == old(o).jtag.jtag_syscall,
        r ==> final(o).jtag.jtag_pairing_2bl == old(o).jtag.jtag_pairing_2bl,
{
    let ghost line = v@.subrange(a as int, b as int);
    let (ta, tb) = trim_range(v, a, b);
    let ghost t = v@.subrange(ta as int, tb as int);
    if ta == tb || v[ta] == ';' || v[ta] == '#' {
        return true;
    }
    if v[ta] == '[' && v[tb - 1] == ']' {
        return false;
    }
    let sep = str_chars(" = ");
    proof {
        reveal_strlit(" = ");
    }
    assert(sep@.len() == 3);
    let f = find_in(v, ta, tb, sep.as_slice());
    proof {
        crate::text::lemma_split_len(t, sep@);
        crate::text::lemma_split_step(v@, ta as int, tb as int, sep@, f as int);
    }
    if f == tb {
        return true;
    }
    let f2 = find_in(v, f + 3, tb, sep.as_slice());
    proof {
        crate::text::lemma_split_len(v@.subrange(f + 3, tb as int), sep@);
        crate::text::lemma_split_step(v@, f + 3, tb as int, sep@, f2 as int);
    }
    if f2 != tb {
        return true;
    }
    assert(split(t, " = "@) =~= seq![v@.subrange(ta as int, f as int), v@.subrange(f + 3, tb as int)]);
    let k_end = trim_end_char_range(v, ta, f, ';');
    let (k0, k1) = trim_range(v, ta, k_end);
    let v_end = trim_end_char_range(v, f + 3, tb, ';');
    let (v0, v1) = trim_range(v, f + 3, v_end);
    let key = sub_chars(v, k0, k1);
    let lk = to_lowercase(key.as_slice());
    let targets = ini_option_targets_of(lk.as_slice());
    let val = sub_chars(v, v0, v1);
    let text = string_from_chars(val.as_slice());
    let tr = str_chars("true");
    let flag = range_eq_ignore_ascii_case(v, v0, v1, tr.as_slice());
    o.apply_fields(&targets, &text, flag);
    true
}

/// Parses an options text: `key = value` lines (keys case-insensitive, `;`
/// and `#` comments, blank lines skipped); any `[section]` line is an error.
pub fn parse_options_ini(content: &str) -> (r: Result<OptionsIni, OptionsIniError>)
    ensures
        r is Err <==> exists|i: int|
            0 <= i < text_lines(content@).len() && is_header_line(#[trigger] text_lines(content@)[i]),
        r matches Err(e) ==> e == OptionsIniError::BadOptionsFormat,
        r matches Ok(o) ==> {
            &&& forall|g: OptField|
                #[trigger] field_value(o, g) == last_write(text_lines(content@), g, text_lines(content@).len() as int)
            &&& o.jtag.jtag_syscall is None
            &&& o.jtag.jtag_pairing_2bl is None
        },
{
    let v = str_chars(content);
    let nl = str_chars("\n");
    proof {
        reveal_strlit("\n");
    }
    assert(nl@.len() == 1);
    let ghost lines = text_lines(content@);
    let n = v.len();
    let mut options = OptionsIni::new();
    let mut pos: usize = 0;
    let ghost mut k: int = 0;
    assert(v@.subrange(0, n as int) =~= v@);
    assert(lines.subrange(0, lines.len() as int) =~= lines);
    loop
        invariant
            pos <= n == v@.len(),
            v@ == content@,
            nl@ == "\n"@,
            nl@.len() == 1,
            lines == text_lines(content@),
            k <= lines.len(),
            split(v@.subrange(pos as int, n as int), nl@) == lines.subrange(k, lines.len() as int),
            forall|i: int| 0 <= i < k ==> !is_header_line(#[trigger] lines[i]),
            0 <= k,
            forall|g: OptField| #[trigger] field_value(options, g) == last_write(lines, g, k),
            options.jtag.jtag_syscall is None,
            options.jtag.jtag_pairing_2bl is None,
        decreases n - pos,
    {
        let j = find_in(v.as_slice(), pos, n, nl.as_slice());
        proof {
            crate::text::lemma_split_len(v@.subrange(pos as int, n as int), nl@);
            crate::text::lemma_split_step(v@, pos as int, n as int, nl@, j as int);
            assert(lines.subrange(k, lines.len() as int)[0] == v@.subrange(pos as int, j as int));
            assert(lines[k] == v@.subrange(pos as int, j as int));
        }
        let ok = apply_option_line(&mut options, v.as_slice(), pos, j);
        if !ok {
            return Err(OptionsIniError::BadOptionsFormat);
        }
        if j == n {
            assert(k + 1 == lines.len());
            assert forall|i: int| 0 <= i < lines.len() implies !is_header_line(#[trigger] lines[i]) by {
                if i < k {
                }
            }
            return Ok(options);
        }
        proof {
            assert(lines.subrange(k + 1, lines.len() as int) =~= lines.subrange(k, lines.len() as int).drop_first());
        }
        pos = j + 1;
        proof {
            k = k + 1;
        }
    }
}

} // verus!
