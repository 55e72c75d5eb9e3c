//! Key vault access: the offsets and sizes of the console keys in a
//! decrypted key vault.

use vstd::prelude::*;
use crate::crypto::CryptoError;
use crate::crypto::rsa::{
    pkcs1_block, prv_crypt_admits, prv_crypt_effect, prv_crypt_result, prv_crypt_spec, prv_words_needed, ExCryptBnDwLePkcs1Format, ExCryptBnQwNeRsaPrvCrypt, ExCryptRsa,
};
use crate::crypto::{be_word, bswap32, read_be_word, swap_dword};
use crate::crypto::sha::be_bytes64;
use crate::crypto::aes::{aes_ecb_decrypt_block, aes_ecb_encrypt_block, xe_aes_ecb_decrypt, xe_aes_ecb_encrypt};
use crate::crypto::rc4::{
    keystream, ksa, lemma_keystream_len, lemma_keystream_split, lemma_rc4_involution, xor_bytes, Rc4,
};
use crate::crypto::sha::{first_three, hmac_sha, hmac_sha_spec, inputs_view};
use crate::gxcore::data::gxp::be32;
use crate::gxcore::handler::{dec_digits, dec_digits_exec};
use crate::gxcore::data::filesearch::hex_digit_char;
use crate::text::string_from_chars;
use crate::gxcore::images::blocks::slice_to_vec;

verus! {

/// Console keys, by their key vault index (`id`).
#[derive(Debug, Clone, Copy, PartialEq, Eq, Structural)]
pub enum XeKey {
    ManufacturingMode,
    AlternateKeyVault,
    RestrictedPrivilegeFlags,
    ReservedByte3,
    OddFeatures,
    OddAuthType,
    RestrictedHvExtLoader,
    PolicyFlashSize,
    PolicyBuiltinUsbMuSize,
    ReservedDword4,
    RestrictedPrivileges,
    ReservedQword2,
    ReservedQword3,
    ReservedQword4,
    ReservedKey1,
    ReservedKey2,
    ReservedKey3,
    ReservedKey4,
    ReservedRandomKey1,
    ReservedRandomKey2,
    ConsoleSerialNumber,
    MoboSerialNumber,
    GameRegion,
    ConsoleObfuscationKey,
    KeyObfuscationKey,
    RoamableObfuscationKey,
    DvdKey,
    PrimaryActivationKey,
    SecondaryActivationKey,
    GlobalDevice2DesKey1,
    GlobalDevice2DesKey2,
    WirelessControllerMs2DesKey1,
    WirelessControllerMs2DesKey2,
    WiredWebcamMs2DesKey1,
    WiredWebcamMs2DesKey2,
    WiredControllerMs2DesKey1,
    WiredControllerMs2DesKey2,
    MemoryUnitMs2DesKey1,
    MemoryUnitMs2DesKey2,
    OtherXsm3DeviceMs2DesKey1,
    OtherXsm3DeviceMs2DesKey2,
    WirelessController3p2DesKey1,
    WirelessController3p2DesKey2,
    WiredWebcam3p2DesKey1,
    WiredWebcam3p2DesKey2,
    WiredController3p2DesKey1,
    WiredController3p2DesKey2,
    MemoryUnit3p2DesKey1,
    MemoryUnit3p2DesKey2,
    OtherXsm3Device3p2DesKey1,
    OtherXsm3Device3p2DesKey2,
    ConsolePrivateKey,
    XeikaPrivateKey,
    CardeaPrivateKey,
    ConsoleCertificate,
    XeikaCertificate,
    CardeaCertificate,
    ConstantMasterKey,
}

pub open spec fn key_id(k: XeKey) -> u32 {
    match k {
        XeKey::ManufacturingMode => 0x0,
        XeKey::AlternateKeyVault => 0x1,
        XeKey::RestrictedPrivilegeFlags => 0x2,
        XeKey::ReservedByte3 => 0x3,
        XeKey::OddFeatures => 0x4,
        XeKey::OddAuthType => 0x5,
        XeKey::RestrictedHvExtLoader => 0x6,
        XeKey::PolicyFlashSize => 0x7,
        XeKey::PolicyBuiltinUsbMuSize => 0x8,
        XeKey::ReservedDword4 => 0x9,
        XeKey::RestrictedPrivileges => 0xA,
        XeKey::ReservedQword2 => 0xB,
        XeKey::ReservedQword3 => 0xC,
        XeKey::ReservedQword4 => 0xD,
        XeKey::ReservedKey1 => 0xE,
        XeKey::ReservedKey2 => 0xF,
        XeKey::ReservedKey3 => 0x10,
        XeKey::ReservedKey4 => 0x11,
        XeKey::ReservedRandomKey1 => 0x12,
        XeKey::ReservedRandomKey2 => 0x13,
        XeKey::ConsoleSerialNumber => 0x14,
        XeKey::MoboSerialNumber => 0x15,
        XeKey::GameRegion => 0x16,
        XeKey::ConsoleObfuscationKey => 0x17,
        XeKey::KeyObfuscationKey => 0x18,
        XeKey::RoamableObfuscationKey => 0x19,
        XeKey::DvdKey => 0x1A,
        XeKey::PrimaryActivationKey => 0x1B,
        XeKey::SecondaryActivationKey => 0x1C,
        XeKey::GlobalDevice2DesKey1 => 0x1D,
        XeKey::GlobalDevice2DesKey2 => 0x1E,
        XeKey::WirelessControllerMs2DesKey1 => 0x1F,
        XeKey::WirelessControllerMs2DesKey2 => 0x20,
        XeKey::WiredWebcamMs2DesKey1 => 0x21,
        XeKey::WiredWebcamMs2DesKey2 => 0x22,
        XeKey::WiredControllerMs2DesKey1 => 0x23,
        XeKey::WiredControllerMs2DesKey2 => 0x24,
        XeKey::MemoryUnitMs2DesKey1 => 0x25,
        XeKey::MemoryUnitMs2DesKey2 => 0x26,
        XeKey::OtherXsm3DeviceMs2DesKey1 => 0x27,
        XeKey::OtherXsm3DeviceMs2DesKey2 => 0x28,
        XeKey::WirelessController3p2DesKey1 => 0x29,
        XeKey::WirelessController3p2DesKey2 => 0x2A,
        XeKey::WiredWebcam3p2DesKey1 => 0x2B,
        XeKey::WiredWebcam3p2DesKey2 => 0x2C,
        XeKey::WiredController3p2DesKey1 => 0x2D,
        XeKey::WiredController3p2DesKey2 => 0x2E,
        XeKey::MemoryUnit3p2DesKey1 => 0x2F,
        XeKey::MemoryUnit3p2DesKey2 => 0x30,
        XeKey::OtherXsm3Device3p2DesKey1 => 0x31,
        XeKey::OtherXsm3Device3p2DesKey2 => 0x32,
        XeKey::ConsolePrivateKey => 0x33,
        XeKey::XeikaPrivateKey => 0x34,
        XeKey::CardeaPrivateKey => 0x35,
        XeKey::ConsoleCertificate => 0x36,
        XeKey::XeikaCertificate => 0x37,
        XeKey::CardeaCertificate => 0x38,
        XeKey::ConstantMasterKey => 0x3C,
    }
}

impl XeKey {
    /// Key vault index of the key.
    pub fn id(&self) -> (r: u32)
        ensures
            r == key_id(*self),
    {
        match self {
            XeKey::ManufacturingMode => 0x0,
            XeKey::AlternateKeyVault => 0x1,
            XeKey::RestrictedPrivilegeFlags => 0x2,
            XeKey::ReservedByte3 => 0x3,
            XeKey::OddFeatures => 0x4,
            XeKey::OddAuthType => 0x5,
            XeKey::RestrictedHvExtLoader => 0x6,
            XeKey::PolicyFlashSize => 0x7,
            XeKey::PolicyBuiltinUsbMuSize => 0x8,
            XeKey::ReservedDword4 => 0x9,
            XeKey::RestrictedPrivileges => 0xA,
            XeKey::ReservedQword2 => 0xB,
            XeKey::ReservedQword3 => 0xC,
            XeKey::ReservedQword4 => 0xD,
            XeKey::ReservedKey1 => 0xE,
            XeKey::ReservedKey2 => 0xF,
            XeKey::ReservedKey3 => 0x10,
            XeKey::ReservedKey4 => 0x11,
            XeKey::ReservedRandomKey1 => 0x12,
            XeKey::ReservedRandomKey2 => 0x13,
            XeKey::ConsoleSerialNumber => 0x14,
            XeKey::MoboSerialNumber => 0x15,
            XeKey::GameRegion => 0x16,
            XeKey::ConsoleObfuscationKey => 0x17,
            XeKey::KeyObfuscationKey => 0x18,
            XeKey::RoamableObfuscationKey => 0x19,
            XeKey::DvdKey => 0x1A,
            XeKey::PrimaryActivationKey => 0x1B,
            XeKey::SecondaryActivationKey => 0x1C,
            XeKey::GlobalDevice2DesKey1 => 0x1D,
            XeKey::GlobalDevice2DesKey2 => 0x1E,
            XeKey::WirelessControllerMs2DesKey1 => 0x1F,
            XeKey::WirelessControllerMs2DesKey2 => 0x20,
            XeKey::WiredWebcamMs2DesKey1 => 0x21,
            XeKey::WiredWebcamMs2DesKey2 => 0x22,
            XeKey::WiredControllerMs2DesKey1 => 0x23,
            XeKey::WiredControllerMs2DesKey2 => 0x24,
            XeKey::MemoryUnitMs2DesKey1 => 0x25,
            XeKey::MemoryUnitMs2DesKey2 => 0x26,
            XeKey::OtherXsm3DeviceMs2DesKey1 => 0x27,
            XeKey::OtherXsm3DeviceMs2DesKey2 => 0x28,
            XeKey::WirelessController3p2DesKey1 => 0x29,
            XeKey::WirelessController3p2DesKey2 => 0x2A,
            XeKey::WiredWebcam3p2DesKey1 => 0x2B,
            XeKey::WiredWebcam3p2DesKey2 => 0x2C,
            XeKey::WiredController3p2DesKey1 => 0x2D,
            XeKey::WiredController3p2DesKey2 => 0x2E,
            XeKey::MemoryUnit3p2DesKey1 => 0x2F,
            XeKey::MemoryUnit3p2DesKey2 => 0x30,
            XeKey::OtherXsm3Device3p2DesKey1 => 0x31,
            XeKey::OtherXsm3Device3p2DesKey2 => 0x32,
            XeKey::ConsolePrivateKey => 0x33,
            XeKey::XeikaPrivateKey => 0x34,
            XeKey::CardeaPrivateKey => 0x35,
            XeKey::ConsoleCertificate => 0x36,
            XeKey::XeikaCertificate => 0x37,
            XeKey::CardeaCertificate => 0x38,
            XeKey::ConstantMasterKey => 0x3C,
        }
    }
}

/// Offset and size of a key in the key vault.
pub open spec fn key_properties_spec(idx: u32) -> Option<(u32, u32)> {
    if idx == 0x0 {
        Some((0x8, 0x1))
    }
    else if idx == 0x1 {
        Some((0x9, 0x1))
    }
    else if idx == 0x2 {
        Some((0xA, 0x1))
    }
    else if idx == 0x3 {
        Some((0xB, 0x1))
    }
    else if idx == 0x4 {
        Some((0xC, 0x2))
    }
    else if idx == 0x5 {
        Some((0xE, 0x2))
    }
    else if idx == 0x6 {
        Some((0x10, 0x4))
    }
    else if idx == 0x7 {
        Some((0x14, 0x4))
    }
    else if idx == 0x8 {
        Some((0x18, 0x4))
    }
    else if idx == 0x9 {
        Some((0x1C, 0x4))
    }
    else if idx == 0xA {
        Some((0x20, 0x8))
    }
    else if idx == 0xB {
        Some((0x28, 0x8))
    }
    else if idx == 0xC {
        Some((0x30, 0x8))
    }
    else if idx == 0xD {
        Some((0x38, 0x8))
    }
    else if idx == 0xE {
        Some((0x40, 0x10))
    }
    else if idx == 0xF {
        Some((0x50, 0x10))
    }
    else if idx == 0x10 {
        Some((0x60, 0x10))
    }
    else if idx == 0x11 {
        Some((0x70, 0x10))
    }
    else if idx == 0x12 {
        Some((0x80, 0x10))
    }
    else if idx == 0x13 {
        Some((0x90, 0x10))
    }
    else if idx == 0x14 {
        Some((0xA0, 0xC))
    }
    else if idx == 0x15 {
        Some((0xAC, 0xC))
    }
    else if idx == 0x16 {
        Some((0xB8, 0x2))
    }
    else if idx == 0x17 {
        Some((0xC0, 0x10))
    }
    else if idx == 0x18 {
        Some((0xD0, 0x10))
    }
    else if idx == 0x19 {
        Some((0xE0, 0x10))
    }
    else if idx == 0x1A {
        Some((0xF0, 0x10))
    }
    else if idx == 0x1B {
        Some((0x100, 0x18))
    }
    else if idx == 0x1C {
        Some((0x118, 0x10))
    }
    else if idx == 0x1D {
        Some((0x128, 0x10))
    }
    else if idx == 0x1E {
        Some((0x138, 0x10))
    }
    else if idx == 0x1F {
        Some((0x148, 0x10))
    }
    else if idx == 0x20 {
        Some((0x158, 0x10))
    }
    else if idx == 0x21 {
        Some((0x168, 0x10))
    }
    else if idx == 0x22 {
        Some((0x178, 0x10))
    }
    else if idx == 0x23 {
        Some((0x188, 0x10))
    }
    else if idx == 0x24 {
        Some((0x198, 0x10))
    }
    else if idx == 0x25 {
        Some((0x1A8, 0x10))
    }
    else if idx == 0x26 {
        Some((0x1B8, 0x10))
    }
    else if idx == 0x27 {
        Some((0x1C8, 0x10))
    }
    else if idx == 0x28 {
        Some((0x1D8, 0x10))
    }
    else if idx == 0x29 {
        Some((0x1E8, 0x10))
    }
    else if idx == 0x2A {
        Some((0x1F8, 0x10))
    }
    else if idx == 0x2B {
        Some((0x208, 0x10))
    }
    else if idx == 0x2C {
        Some((0x218, 0x10))
    }
    else if idx == 0x2D {
        Some((0x228, 0x10))
    }
    else if idx == 0x2E {
        Some((0x238, 0x10))
    }
    else if idx == 0x2F {
        Some((0x248, 0x10))
    }
    else if idx == 0x30 {
        Some((0x258, 0x10))
    }
    else if idx == 0x31 {
        Some((0x268, 0x10))
    }
    else if idx == 0x32 {
        Some((0x278, 0x10))
    }
    else if idx == 0x33 {
        Some((0x288, 0x1D0))
    }
    else if idx == 0x34 {
        Some((0x458, 0x390))
    }
    else if idx == 0x35 {
        Some((0x7E8, 0x1D0))
    }
    else if idx == 0x36 {
        Some((0x9B8, 0x1A8))
    }
    else if idx == 0x37 {
        Some((0xB60, 0x1288))
    }
    else if idx == 0x38 {
        Some((0x1EE8, 0x2108))
    }
    else if idx == 0x44 {
        Some((0x1DF8, 0x100))
    }
    else {
        None
    }
}

/// Offset and size of a key in the key vault.
pub fn key_properties(idx: u32) -> (r: Option<(u32, u32)>)
    ensures
        r == key_properties_spec(idx),
{
    match idx {
        0x0 => Some((0x8, 0x1)),
        0x1 => Some((0x9, 0x1)),
        0x2 => Some((0xA, 0x1)),
        0x3 => Some((0xB, 0x1)),
        0x4 => Some((0xC, 0x2)),
        0x5 => Some((0xE, 0x2)),
        0x6 => Some((0x10, 0x4)),
        0x7 => Some((0x14, 0x4)),
        0x8 => Some((0x18, 0x4)),
        0x9 => Some((0x1C, 0x4)),
        0xA => Some((0x20, 0x8)),
        0xB => Some((0x28, 0x8)),
        0xC => Some((0x30, 0x8)),
        0xD => Some((0x38, 0x8)),
        0xE => Some((0x40, 0x10)),
        0xF => Some((0x50, 0x10)),
        0x10 => Some((0x60, 0x10)),
        0x11 => Some((0x70, 0x10)),
        0x12 => Some((0x80, 0x10)),
        0x13 => Some((0x90, 0x10)),
        0x14 => Some((0xA0, 0xC)),
        0x15 => Some((0xAC, 0xC)),
        0x16 => Some((0xB8, 0x2)),
        0x17 => Some((0xC0, 0x10)),
        0x18 => Some((0xD0, 0x10)),
        0x19 => Some((0xE0, 0x10)),
        0x1A => Some((0xF0, 0x10)),
        0x1B => Some((0x100, 0x18)),
        0x1C => Some((0x118, 0x10)),
        0x1D => Some((0x128, 0x10)),
        0x1E => Some((0x138, 0x10)),
        0x1F => Some((0x148, 0x10)),
        0x20 => Some((0x158, 0x10)),
        0x21 => Some((0x168, 0x10)),
        0x22 => Some((0x178, 0x10)),
        0x23 => Some((0x188, 0x10)),
        0x24 => Some((0x198, 0x10)),
        0x25 => Some((0x1A8, 0x10)),
        0x26 => Some((0x1B8, 0x10)),
        0x27 => Some((0x1C8, 0x10)),
        0x28 => Some((0x1D8, 0x10)),
        0x29 => Some((0x1E8, 0x10)),
        0x2A => Some((0x1F8, 0x10)),
        0x2B => Some((0x208, 0x10)),
        0x2C => Some((0x218, 0x10)),
        0x2D => Some((0x228, 0x10)),
        0x2E => Some((0x238, 0x10)),
        0x2F => Some((0x248, 0x10)),
        0x30 => Some((0x258, 0x10)),
        0x31 => Some((0x268, 0x10)),
        0x32 => Some((0x278, 0x10)),
        0x33 => Some((0x288, 0x1D0)),
        0x34 => Some((0x458, 0x390)),
        0x35 => Some((0x7E8, 0x1D0)),
        0x36 => Some((0x9B8, 0x1A8)),
        0x37 => Some((0xB60, 0x1288)),
        0x38 => Some((0x1EE8, 0x2108)),
        0x44 => Some((0x1DF8, 0x100)),
        _ => None,
    }
}

/// Roamable obfuscation key of retail consoles.
pub const ROAMABLE_KEY_RETAIL: [u8; 16] = [
    0xE1u8, 0xBCu8, 0x15u8, 0x9Cu8, 0x73u8, 0xB1u8, 0xEAu8, 0xE9u8, 0xABu8, 0x31u8, 0x70u8, 0xF3u8, 0xADu8, 0x47u8,
    0xEBu8, 0xF3u8,
];

/// Roamable obfuscation key of development kits.
pub const ROAMABLE_KEY_DEVKIT: [u8; 16] = [
    0xDAu8, 0xB6u8, 0x9Au8, 0xD9u8, 0x8Eu8, 0x28u8, 0x76u8, 0x4Fu8, 0x97u8, 0x7Eu8, 0xE2u8, 0x48u8, 0x7Eu8, 0x4Fu8,
    0x3Fu8, 0x68u8,
];

/// The key stored last under `idx` among imported keys (later imports win).
pub open spec fn find_key(s: Seq<(u32, Seq<u8>)>, idx: u32) -> Option<Seq<u8>>
    decreases s.len(),
{
    if s.len() == 0 {
        None
    } else if s.last().0 == idx {
        Some(s.last().1)
    } else {
        find_key(s.drop_last(), idx)
    }
}

/// Position of the key stored last under `idx`, or -1.
pub open spec fn find_index(s: Seq<(u32, Seq<u8>)>, idx: u32) -> int
    decreases s.len(),
{
    if s.len() == 0 {
        -1
    } else if s.last().0 == idx {
        s.len() - 1
    } else {
        find_index(s.drop_last(), idx)
    }
}

/// A key's bytes: an imported key under its index, else its place in a loaded
/// key vault; none when neither has it.
pub open spec fn key_bytes_spec(vault: Seq<u8>, imported: Seq<(u32, Seq<u8>)>, idx: u32) -> Option<Seq<u8>> {
    match find_key(imported, idx) {
        Some(k) => Some(k),
        None => match key_properties_spec(idx) {
            Some((off, size)) => if vault.len() > 0 {
                Some(vault.subrange(off as int, off + size))
            } else {
                None
            },
            None => None,
        },
    }
}

/// The key vault data without its 16-byte header (present when the data is
/// 0x4000 bytes or more).
pub open spec fn vault_body(data: Seq<u8>) -> Seq<u8> {
    if data.len() >= 0x4000 {
        data.subrange(0x10, data.len() as int)
    } else {
        data
    }
}

/// The console type in a console certificate: big-endian at 0x18.
pub open spec fn cert_console_type(cert: Seq<u8>) -> int {
    be32(cert, 0x18)
}

/// The roamable obfuscation key for a console type: 2 is retail, anything
/// else a development kit.
pub open spec fn roamable_key_for(console_type: int) -> Seq<u8> {
    if console_type == 2 {
        ROAMABLE_KEY_RETAIL@
    } else {
        ROAMABLE_KEY_DEVKIT@
    }
}

/// The console certificate once `body` is loaded: an imported one, else the
/// vault's.
pub open spec fn loaded_cert(body: Seq<u8>, imported: Seq<(u32, Seq<u8>)>) -> Seq<u8> {
    match find_key(imported, 0x36) {
        Some(c) => c,
        None => body.subrange(0x9B8, 0xB60),
    }
}

pub open spec fn imported_ok(imported: Seq<(u32, Seq<u8>)>) -> bool {
    forall|i: int| 0 <= i < imported.len() ==> #[trigger] imported[i].1.len() <= u32::MAX
}

/// Key vault and imported keys.
pub struct KeyManager {
    vault: Vec<u8>,
    imported: Vec<(u32, Vec<u8>)>,
}

impl KeyManager {
    #[verifier::type_invariant]
    spec fn inv(&self) -> bool {
        &&& (self.vault@.len() == 0 || self.vault@.len() >= 0x3FF0)
        &&& imported_ok(self.imported())
    }

    /// The stored key vault (empty before one is loaded).
    pub closed spec fn vault(&self) -> Seq<u8> {
        self.vault@
    }

    /// The imported keys, in the order they were set.
    pub closed spec fn imported(&self) -> Seq<(u32, Seq<u8>)> {
        self.imported@.map_values(|e: (u32, Vec<u8>)| (e.0, e.1@))
    }

    pub open spec fn key_bytes(&self, idx: u32) -> Option<Seq<u8>> {
        key_bytes_spec(self.vault(), self.imported(), idx)
    }

    /// A key manager without a key vault or imported keys.
    pub fn new() -> (r: Self)
        ensures
            r.vault().len() == 0,
            r.imported().len() == 0,
    {
        let r = KeyManager { vault: Vec::new(), imported: Vec::new() };
        assert(r.imported() =~= Seq::<(u32, Seq<u8>)>::empty());
        r
    }

    fn find_imported(&self, idx: u32) -> (r: Option<usize>)
        ensures
            match r {
                Some(i) => i == find_index(self.imported(), idx) && i < self.imported().len()
                    && self.imported()[i as int].0 == idx,
                None => find_index(self.imported(), idx) == -1,
            },
            find_index(self.imported(), idx) >= 0 ==> find_key(self.imported(), idx) == Some(
                self.imported()[find_index(self.imported(), idx)].1,
            ),
            find_index(self.imported(), idx) == -1 <==> find_key(self.imported(), idx) is None,
    {
        let ghost im = self.imported();
        let mut k = self.imported.len();
        proof {
            lemma_find_consistent(im, idx);
            assert(im.take(k as int) =~= im);
        }
        while k > 0
            invariant
                k <= self.imported@.len(),
                im == self.imported(),
                im.len() == self.imported@.len(),
                find_index(im, idx) == find_index(im.take(k as int), idx),
            decreases k,
        {
            let ghost t = im.take(k as int);
            assert(t.drop_last() =~= im.take(k - 1));
            if self.imported[k - 1].0 == idx {
                proof {
                    lemma_find_consistent(im, idx);
                }
                return Some(k - 1);
            }
            k -= 1;
        }
        None
    }

    /// Imports a key under an index; a later import under the same index
    /// replaces it for lookups. The size is a 32-bit count.
    pub fn set_key(&mut self, idx: u32, data: &[u8])
        requires
            data@.len() <= u32::MAX,
        ensures
            final(self).vault() == old(self).vault(),
            final(self).imported() == old(self).imported().push((idx, data@)),
    {
        proof {
            use_type_invariant(&*self);
        }
        let v = slice_to_vec(data, 0, data.len());
        assert(data@.subrange(0, data@.len() as int) =~= data@);
        let mut im: Vec<(u32, Vec<u8>)> = Vec::new();
        std::mem::swap(&mut im, &mut self.imported);
        im.push((idx, v));
        proof {
            let nv = im@.map_values(|e: (u32, Vec<u8>)| (e.0, e.1@));
            assert(nv =~= old(self).imported().push((idx, data@)));
            assert(imported_ok(old(self).imported()));
            assert forall|q: int| 0 <= q < nv.len() implies #[trigger] nv[q].1.len() <= u32::MAX by {
                if q < old(self).imported().len() {
                    assert(nv[q] == old(self).imported()[q]);
                }
            }
        }
        self.imported = im;
        assert(self.imported() =~= old(self).imported().push((idx, data@)));
    }

    /// The bytes of a key, if the manager has it (see `key_bytes_spec`).
    pub fn key(&self, idx: u32) -> (r: Option<Vec<u8>>)
        ensures
            match self.key_bytes(idx) {
                Some(k) => r matches Some(v) && v@ == k,
                None => r is None,
            },
    {
        proof {
            use_type_invariant(self);
        }
        match self.find_imported(idx) {
            Some(i) => {
                let k = &self.imported[i].1;
                let v = slice_to_vec(k.as_slice(), 0, k.len());
                assert(k@.subrange(0, k@.len() as int) =~= k@);
                Some(v)
            },
            None => match key_properties(idx) {
                Some((off, size)) => {
                    if self.vault.len() == 0 {
                        return None;
                    }
                    assert(off + size <= 0x3FF0);
                    Some(slice_to_vec(self.vault.as_slice(), off as usize, (off + size) as usize))
                },
                None => None,
            },
        }
    }

    /// Whether the manager has the key.
    pub fn is_key_supported(&self, idx: u32) -> (r: bool)
        ensures
            r == self.key_bytes(idx) is Some,
    {
        proof {
            use_type_invariant(self);
        }
        match self.find_imported(idx) {
            Some(_) => true,
            None => key_properties(idx).is_some() && self.vault.len() > 0,
        }
    }

    /// The size of a key: the imported key's length, else its size in the key
    /// vault; 0 when the manager does not have it.
    pub fn get_key_properties(&self, idx: u32) -> (r: u32)
        ensures
            r == match self.key_bytes(idx) {
                Some(k) => k.len() as u32,
                None => 0,
            },
    {
        proof {
            use_type_invariant(self);
        }
        match self.find_imported(idx) {
            Some(i) => {
                proof {
                    assert(self.imported()[i as int].1.len() <= u32::MAX);
                }
                self.imported[i].1.len() as u32
            },
            None => match key_properties(idx) {
                Some((_, size)) => if self.vault.len() > 0 {
                    size
                } else {
                    0
                },
                None => 0,
            },
        }
    }

    /// A key as a vector; an error when the manager does not have it.
    pub fn get_key(&self, key: XeKey) -> (r: Result<Vec<u8>, CryptoError>)
        ensures
            match self.key_bytes(key_id(key)) {
                Some(k) => r matches Ok(v) && v@ == k,
                None => r == Err::<Vec<u8>, CryptoError>(CryptoError::FfiError),
            },
    {
        match self.key(key.id()) {
            Some(v) => Ok(v),
            None => Err(CryptoError::FfiError),
        }
    }

    /// The console type in the console certificate; 0 without one.
    pub fn console_type(&self) -> (r: u32)
        requires
            find_key(self.imported(), 0x36) matches Some(c) ==> c.len() >= 0x1C,
        ensures
            r == match self.key_bytes(0x36) {
                Some(c) => cert_console_type(c),
                None => 0,
            },
    {
        proof {
            use_type_invariant(self);
        }
        match self.key(0x36) {
            Some(c) => {
                (c[0x18] as u32) * 0x100_0000 + (c[0x19] as u32) * 0x1_0000 + (c[0x1A] as u32) * 0x100 + (c[0x1B] as u32)
            },
            None => 0,
        }
    }

    /// Loads a decrypted key vault (at least 0x3FF0 bytes) and sets the
    /// roamable obfuscation key for the console type found in the console
    /// certificate: into an imported roamable key when there is one (its first
    /// 16 bytes), else into the vault at 0xE0.
    pub fn load_vault(&mut self, data: &[u8]) -> (r: Result<(), CryptoError>)
        requires
            find_key(old(self).imported(), 0x36) matches Some(c) ==> c.len() >= 0x1C,
            find_key(old(self).imported(), 0x19) matches Some(c) ==> c.len() >= 16,
        ensures
            data@.len() < 0x3FF0 ==> r == Err::<(), CryptoError>(CryptoError::FfiError) && final(self).vault() == old(
                self,
            ).vault() && final(self).imported() == old(self).imported(),
            data@.len() >= 0x3FF0 ==> r is Ok && ({
                let body = vault_body(data@);
                let key = roamable_key_for(cert_console_type(loaded_cert(body, old(self).imported())));
                let j = find_index(old(self).imported(), 0x19);
                if j >= 0 {
                    &&& final(self).vault() == body
                    &&& final(self).imported() == old(self).imported().update(
                        j,
                        (0x19u32, key + old(self).imported()[j].1.skip(16)),
                    )
                } else {
                    &&& final(self).vault() == body.subrange(0, 0xE0) + key + body.subrange(0xF0, body.len() as int)
                    &&& final(self).imported() == old(self).imported()
                }
            }),
    {
        proof {
            use_type_invariant(&*self);
        }
        let n = data.len();
        if n < 0x3FF0 {
            return Err(CryptoError::FfiError);
        }
        let offset: usize = if n >= 0x4000 {
            0x10
        } else {
            0
        };
        let mut v = slice_to_vec(data, offset, n);
        let ghost body = v@;
        assert(body == vault_body(data@));
        let ct: u32 = match self.find_imported(0x36) {
            Some(i) => {
                let c = &self.imported[i].1;
                (c[0x18] as u32) * 0x100_0000 + (c[0x19] as u32) * 0x1_0000 + (c[0x1A] as u32) * 0x100 + (c[0x1B] as u32)
            },
            None => (v[0x9D0] as u32) * 0x100_0000 + (v[0x9D1] as u32) * 0x1_0000 + (v[0x9D2] as u32) * 0x100
                + (v[0x9D3] as u32),
        };
        assert(ct == cert_console_type(loaded_cert(body, old(self).imported())));
        let key: [u8; 16] = if ct == 2 {
            ROAMABLE_KEY_RETAIL
        } else {
            ROAMABLE_KEY_DEVKIT
        };
        assert(key@ == roamable_key_for(ct as int));
        match self.find_imported(0x19) {
            Some(j) => {
                let id = self.imported[j].0;
                let old_key = &self.imported[j].1;
                let mut nk: Vec<u8> = Vec::new();
                let mut i: usize = 0;
                while i < 16
                    invariant
                        i <= 16,
                        nk@ == key@.take(i as int),
                    decreases 16 - i,
                {
                    nk.push(key[i]);
                    i += 1;
                    assert(nk@ =~= key@.take(i as int));
                }
                while i < old_key.len()
                    invariant
                        16 <= i <= old_key@.len(),
                        nk@ == key@ + old_key@.subrange(16, i as int),
                    decreases old_key@.len() - i,
                {
                    nk.push(old_key[i]);
                    i += 1;
                    assert(nk@ =~= key@ + old_key@.subrange(16, i as int));
                }
                assert(old_key@.subrange(16, old_key@.len() as int) =~= old_key@.skip(16));
                assert(nk@.len() <= u32::MAX);
                let mut im: Vec<(u32, Vec<u8>)> = Vec::new();
                std::mem::swap(&mut im, &mut self.imported);
                im.set(j, (id, nk));
                proof {
                    let nv = im@.map_values(|e: (u32, Vec<u8>)| (e.0, e.1@));
                    assert(nv =~= old(self).imported().update(
                        j as int,
                        (0x19u32, key@ + old(self).imported()[j as int].1.skip(16)),
                    ));
                    assert(imported_ok(old(self).imported()));
                    assert forall|q: int| 0 <= q < nv.len() implies #[trigger] nv[q].1.len() <= u32::MAX by {
                        if q != j {
                            assert(nv[q] == old(self).imported()[q]);
                        }
                    }
                }
                self.imported = im;
                self.vault = v;
            },
            None => {
                let mut i: usize = 0;
                while i < 16
                    invariant
                        i <= 16,
                        v@.len() == body.len(),
                        body.len() >= 0x3FE0,
                        forall|q: int| 0 <= q < body.len() ==> v@[q] == (if 0xE0 <= q < 0xE0 + i { key@[q - 0xE0] } else { body[q] }),
                    decreases 16 - i,
                {
                    v.set(0xE0 + i, key[i]);
                    i += 1;
                }
                assert(v@ =~= body.subrange(0, 0xE0) + key@ + body.subrange(0xF0, body.len() as int));
                self.vault = v;
            },
        }
        Ok(())
    }
}

/// The obfuscation key: the roamable one, or the console's.
pub open spec fn obf_key_index(roaming: bool) -> u32 {
    if roaming {
        0x19
    } else {
        0x17
    }
}

/// The first 16 bytes of the HMAC-SHA-1 of a message under the key; 16 zero
/// bytes without a key.
pub open spec fn obf_tag(k: Option<Seq<u8>>, msg: Seq<u8>) -> Seq<u8> {
    match k {
        Some(key) => hmac_sha_spec(key, msg).take(16),
        None => Seq::new(16, |i: int| 0u8),
    }
}

/// The obfuscated body: eight 0xBB bytes, then the data.
pub open spec fn obf_body(d: Seq<u8>) -> Seq<u8> {
    Seq::new(8, |i: int| 0xBBu8) + d
}

/// RC4 state keyed with a 16-byte key.
pub open spec fn obf_cipher(rk: Seq<u8>) -> (Seq<u8>, u8, u8) {
    (ksa(rk, 256).0, 0u8, 0u8)
}

/// Obfuscated data: the tag of the body, then the body encrypted with RC4
/// under the tag of the tag.
pub open spec fn obfuscate_spec(k: Option<Seq<u8>>, d: Seq<u8>) -> Seq<u8> {
    let tag = obf_tag(k, obf_body(d));
    let rk = obf_tag(k, tag);
    tag + xor_bytes(obf_body(d), keystream(obf_cipher(rk), obf_body(d).len()).1)
}

/// Unobfuscated data: the body decrypted under the tag of the stored tag, when
/// its own tag matches the stored one; none for shorter input or a mismatch.
pub open spec fn unobfuscate_spec(k: Option<Seq<u8>>, d: Seq<u8>) -> Option<Seq<u8>> {
    if d.len() < 0x18 {
        None
    } else {
        let tag = d.take(16);
        let rk = obf_tag(k, tag);
        let plain = xor_bytes(d.skip(16), keystream(obf_cipher(rk), (d.len() - 16) as nat).1);
        if obf_tag(k, plain) == tag {
            Some(plain.skip(8))
        } else {
            None
        }
    }
}

/// Unobfuscating obfuscated data gives the data back, under any key or none.
pub proof fn lemma_obfuscate_roundtrip(k: Option<Seq<u8>>, d: Seq<u8>)
    requires
        match k {
            Some(key) => hmac_sha_spec(key, obf_body(d)).len() >= 16 && hmac_sha_spec(
                key,
                obf_tag(k, obf_body(d)),
            ).len() >= 16,
            None => true,
        },
    ensures
        unobfuscate_spec(k, obfuscate_spec(k, d)) == Some(d),
{
    let body = obf_body(d);
    let tag = obf_tag(k, body);
    let rk = obf_tag(k, tag);
    let st = obf_cipher(rk);
    let o = obfuscate_spec(k, d);
    let e = xor_bytes(body, keystream(st, body.len()).1);
    assert(tag.len() == 16);
    assert(o.take(16) =~= tag);
    assert(o.skip(16) =~= e);
    lemma_rc4_involution(body, st);
    assert(xor_bytes(o.skip(16), keystream(st, (o.len() - 16) as nat).1) == body);
    assert(body.skip(8) =~= d);
}

fn zeros16() -> (r: Vec<u8>)
    ensures
        r@ == Seq::new(16, |i: int| 0u8),
{
    let r = vec![0u8; 16];
    assert(r@ =~= Seq::new(16, |i: int| 0u8));
    r
}

/// `obf_tag` of one or two concatenated messages.
fn tag_of(k: &Option<Vec<u8>>, m1: &[u8], m2: &[u8]) -> (r: Vec<u8>)
    ensures
        r@ == obf_tag(
            match k {
                Some(v) => Some(v@),
                None => None,
            },
            m1@ + m2@,
        ),
        r@.len() == 16,
{
    match k {
        Some(key) => {
            let ins: [&[u8]; 2] = [m1, m2];
            assert(first_three(inputs_view(ins@)) =~= m1@ + m2@) by {
                assert(inputs_view(ins@)[0] == m1@);
                assert(inputs_view(ins@)[1] == m2@);
            }
            match hmac_sha(key.as_slice(), &ins) {
                Ok(h) => {
                    let t = slice_to_vec(&h, 0, 16);
                    t
                },
                Err(_) => {
                    assert(false);
                    zeros16()
                },
            }
        },
        None => zeros16(),
    }
}

impl KeyManager {
    /// Obfuscates data with the roamable or the console obfuscation key (see
    /// `obfuscate_spec`; without the key its tags are zero).
    pub fn obfuscate(&self, data: &[u8], roaming: bool) -> (r: Result<Vec<u8>, CryptoError>)
        requires
            data@.len() + 0x18 <= u32::MAX,
        ensures
            r matches Ok(v) && v@ == obfuscate_spec(self.key_bytes(obf_key_index(roaming)), data@),
    {
        let idx: u32 = if roaming {
            0x19
        } else {
            0x17
        };
        let k = self.key(idx);
        let ghost kv = self.key_bytes(obf_key_index(roaming));
        assert(match k {
            Some(v) => Some(v@),
            None => None::<Seq<u8>>,
        } == kv);
        let mut body: Vec<u8> = vec![0xBBu8; 8];
        let mut i: usize = 0;
        while i < data.len()
            invariant
                i <= data@.len(),
                body@ == obf_body(data@.take(i as int)),
            decreases data@.len() - i,
        {
            body.push(data[i]);
            i += 1;
            assert(body@ =~= obf_body(data@.take(i as int)));
        }
        assert(data@.take(data@.len() as int) =~= data@);
        let empty: [u8; 0] = [];
        assert(body@ + empty@ =~= body@);
        let tag = tag_of(&k, body.as_slice(), &empty);
        assert(tag@ + empty@ =~= tag@);
        let rk = tag_of(&k, tag.as_slice(), &empty);
        let mut cipher = match Rc4::new(rk.as_slice()) {
            Ok(c) => c,
            Err(_) => {
                assert(false);
                return Err(CryptoError::FfiError);
            },
        };
        let ghost b0 = body@;
        let _ = cipher.crypt(body.as_mut_slice());
        let mut out = tag;
        let mut j: usize = 0;
        while j < body.len()
            invariant
                j <= body@.len(),
                out@ == obf_tag(kv, b0) + body@.take(j as int),
            decreases body@.len() - j,
        {
            out.push(body[j]);
            j += 1;
            assert(out@ =~= obf_tag(kv, b0) + body@.take(j as int));
        }
        assert(body@.take(body@.len() as int) =~= body@);
        Ok(out)
    }

    /// Reverses `obfuscate` (see `unobfuscate_spec`): an error for input
    /// shorter than 0x18 bytes or whose tag does not match.
    pub fn unobfuscate(&self, data: &[u8], roaming: bool) -> (r: Result<Vec<u8>, CryptoError>)
        ensures
            match unobfuscate_spec(self.key_bytes(obf_key_index(roaming)), data@) {
                Some(p) => r matches Ok(v) && v@ == p,
                None => r == Err::<Vec<u8>, CryptoError>(CryptoError::FfiError),
            },
    {
        let n = data.len();
        if n < 0x18 {
            return Err(CryptoError::FfiError);
        }
        let idx: u32 = if roaming {
            0x19
        } else {
            0x17
        };
        let k = self.key(idx);
        let ghost kv = self.key_bytes(obf_key_index(roaming));
        assert(match k {
            Some(v) => Some(v@),
            None => None::<Seq<u8>>,
        } == kv);
        let stored = slice_to_vec(data, 0, 16);
        let mut head = slice_to_vec(data, 16, 0x18);
        let mut output = slice_to_vec(data, 0x18, n);
        let empty: [u8; 0] = [];
        assert(stored@ + empty@ =~= stored@);
        let rk = tag_of(&k, stored.as_slice(), &empty);
        let mut cipher = match Rc4::new(rk.as_slice()) {
            Ok(c) => c,
            Err(_) => {
                assert(false);
                return Err(CryptoError::FfiError);
            },
        };
        let ghost st = obf_cipher(rk@);
        let ghost h0 = head@;
        let ghost o0 = output@;
        let _ = cipher.crypt(head.as_mut_slice());
        let _ = cipher.crypt(output.as_mut_slice());
        proof {
            lemma_keystream_split(st, 8, (n - 0x18) as nat);
            let mid = keystream(st, 8);
            lemma_keystream_len(st, 8);
            lemma_keystream_len(mid.0, (n - 0x18) as nat);
            assert((n - 16) as nat == 8 + (n - 0x18) as nat);
            let ks = keystream(st, (n - 16) as nat).1;
            assert(ks == mid.1 + keystream(mid.0, (n - 0x18) as nat).1);
            assert(data@.skip(16) =~= h0 + o0);
            assert(head@ == xor_bytes(h0, mid.1));
            assert(output@ == xor_bytes(o0, keystream(mid.0, (n - 0x18) as nat).1));
            assert(head@ + output@ =~= xor_bytes(data@.skip(16), ks));
        }
        let tag = tag_of(&k, head.as_slice(), output.as_slice());
        let mut same = true;
        let mut q: usize = 0;
        assert(tag@.take(0) =~= stored@.take(0));
        while q < 16
            invariant
                q <= 16,
                tag@.len() == 16,
                stored@.len() == 16,
                same == (tag@.take(q as int) == stored@.take(q as int)),
            decreases 16 - q,
        {
            if tag[q] != stored[q] {
                same = false;
            }
            proof {
                if same {
                    assert(tag@.take(q + 1) =~= stored@.take(q + 1));
                } else if tag@.take(q + 1) == stored@.take(q + 1) {
                    assert(tag@.take(q as int) =~= tag@.take(q + 1).take(q as int));
                    assert(stored@.take(q as int) =~= stored@.take(q + 1).take(q as int));
                    assert(tag@.take(q + 1)[q as int] == stored@.take(q + 1)[q as int]);
                }
            }
            q += 1;
        }
        assert(tag@.take(16) =~= tag@);
        assert(stored@.take(16) =~= stored@);
        assert(stored@ =~= data@.take(16));
        proof {
            let plain = head@ + output@;
            assert(plain.skip(8) =~= output@);
        }
        if same {
            Ok(output)
        } else {
            Err(CryptoError::FfiError)
        }
    }
}

/// The 40-bit console ID number: big-endian in certificate bytes 2 to 6.
pub open spec fn console_id_number(cert: Seq<u8>) -> int {
    cert[2] as int * 0x1_0000_0000 + cert[3] as int * 0x100_0000 + cert[4] as int * 0x1_0000 + cert[5] as int
        * 0x100 + cert[6] as int
}

/// Digits padded on the left with zeros to `w` characters.
pub open spec fn zero_pad(s: Seq<char>, w: nat) -> Seq<char> {
    if s.len() < w {
        Seq::new((w - s.len()) as nat, |i: int| '0') + s
    } else {
        s
    }
}

/// The console ID as text: the number without its low four bits in decimal,
/// padded to eleven digits, then those four bits as one hex digit.
pub open spec fn console_id_text(c: int) -> Seq<char> {
    zero_pad(dec_digits((c / 16) as nat), 11) + seq![hex_digit_char(c % 16)]
}

pub open spec fn pow10(k: nat) -> nat
    decreases k,
{
    if k == 0 {
        1
    } else {
        10 * pow10((k - 1) as nat)
    }
}

proof fn lemma_dec_digits_len(v: nat, k: nat)
    requires
        k >= 1,
        v < pow10(k),
    ensures
        dec_digits(v).len() <= k,
    decreases k,
{
    if v >= 10 {
        assert(k >= 2) by {
            if k == 1 {
                assert(pow10(1) == 10 * pow10(0));
            }
        }
        assert(v / 10 < pow10((k - 1) as nat)) by {
            assert(pow10(k) == 10 * pow10((k - 1) as nat));
        }
        lemma_dec_digits_len(v / 10, (k - 1) as nat);
    }
}

impl KeyManager {
    /// The console ID from the console certificate: its five raw bytes and
    /// its twelve-character text (see `console_id_text`); none without a
    /// certificate.
    pub fn console_id(&self) -> (r: Option<([u8; 5], String)>)
        requires
            find_key(self.imported(), 0x36) matches Some(c) ==> c.len() >= 7,
        ensures
            match self.key_bytes(0x36) {
                Some(c) => r matches Some((raw, text)) && raw@ == c.subrange(2, 7) && text@ == console_id_text(
                    console_id_number(c),
                ) && text@.len() == 12,
                None => r is None,
            },
    {
        proof {
            use_type_invariant(self);
        }
        let cert = match self.key(0x36) {
            Some(c) => c,
            None => return None,
        };
        let raw = [cert[2], cert[3], cert[4], cert[5], cert[6]];
        assert(raw@ =~= cert@.subrange(2, 7));
        let counter: u64 = (cert[2] as u64) * 0x1_0000_0000 + (cert[3] as u64) * 0x100_0000 + (cert[4] as u64)
            * 0x1_0000 + (cert[5] as u64) * 0x100 + (cert[6] as u64);
        let hi = counter / 16;
        let lo = counter % 16;
        let digits = dec_digits_exec(hi);
        proof {
            assert(pow10(11) == 100_000_000_000) by {
                reveal_with_fuel(pow10, 12);
            }
            lemma_dec_digits_len(hi as nat, 11);
        }
        let mut text: Vec<char> = Vec::new();
        let mut i: usize = digits.len();
        while i < 11
            invariant
                digits@.len() <= i <= 11,
                text@ == Seq::new((i - digits@.len()) as nat, |q: int| '0'),
            decreases 11 - i,
        {
            text.push('0');
            i += 1;
            assert(text@ =~= Seq::new((i - digits@.len()) as nat, |q: int| '0'));
        }
        let mut j: usize = 0;
        while j < digits.len()
            invariant
                j <= digits@.len() <= 11,
                text@ == Seq::new((11 - digits@.len()) as nat, |q: int| '0') + digits@.take(j as int),
            decreases digits@.len() - j,
        {
            text.push(digits[j]);
            j += 1;
            assert(text@ =~= Seq::new((11 - digits@.len()) as nat, |q: int| '0') + digits@.take(j as int));
        }
        assert(digits@.take(digits@.len() as int) =~= digits@);
        let h = if lo < 10 {
            (0x30u8 + lo as u8) as char
        } else {
            (0x61u8 + lo as u8 - 10) as char
        };
        text.push(h);
        proof {
            if digits@.len() == 11 {
                assert(Seq::new(0, |q: int| '0') + digits@ =~= digits@);
            }
            assert(text@ =~= console_id_text(console_id_number(cert@)));
        }
        Some((raw, string_from_chars(text.as_slice())))
    }
}

fn key16(k: &Vec<u8>) -> (r: [u8; 16])
    requires
        k@.len() >= 16,
    ensures
        r@ == k@.take(16),
{
    let r = [k[0], k[1], k[2], k[3], k[4], k[5], k[6], k[7], k[8], k[9], k[10], k[11], k[12], k[13], k[14], k[15]];
    assert(r@ =~= k@.take(16));
    r
}

impl KeyManager {
    /// HMAC-SHA-1 of the first three inputs under a key of the manager; none
    /// when it does not have the key.
    pub fn hmac_sha(&self, idx: u32, inputs: &[&[u8]]) -> (r: Option<[u8; 20]>)
        ensures
            match self.key_bytes(idx) {
                Some(k) => r matches Some(h) && h@ == hmac_sha_spec(k, first_three(inputs_view(inputs@))),
                None => r is None,
            },
    {
        match self.key(idx) {
            Some(k) => match hmac_sha(k.as_slice(), inputs) {
                Ok(h) => Some(h),
                Err(_) => None,
            },
            None => None,
        }
    }

    /// A 16-byte key encrypted (AES-128) under the key obfuscation key (its
    /// first 16 bytes).
    pub fn obscure_key(&self, input: &[u8; 16]) -> (r: [u8; 16])
        requires
            self.key_bytes(key_id(XeKey::KeyObfuscationKey)) matches Some(k) && k.len() >= 16,
        ensures
            r@ == aes_ecb_encrypt_block(self.key_bytes(key_id(XeKey::KeyObfuscationKey))->0.take(16), input@),
    {
        let k = match self.key(0x18) {
            Some(k) => k,
            None => {
                assert(false);
                return *input;
            },
        };
        let key = key16(&k);
        let mut out = *input;
        xe_aes_ecb_encrypt(&key, &mut out);
        out
    }

    /// HMAC-SHA-1 of the first three inputs under an obscured key: the key is
    /// first decrypted (AES-128) under the key obfuscation key.
    pub fn hmac_sha_using_key(&self, obscured_key: &[u8; 16], inputs: &[&[u8]]) -> (r: [u8; 20])
        requires
            self.key_bytes(key_id(XeKey::KeyObfuscationKey)) matches Some(k) && k.len() >= 16,
        ensures
            r@ == hmac_sha_spec(
                aes_ecb_decrypt_block(self.key_bytes(key_id(XeKey::KeyObfuscationKey))->0.take(16), obscured_key@),
                first_three(inputs_view(inputs@)),
            ),
    {
        let k = match self.key(0x18) {
            Some(k) => k,
            None => {
                assert(false);
                return [0u8; 20];
            },
        };
        let enc = key16(&k);
        let mut key = *obscured_key;
        xe_aes_ecb_decrypt(&enc, &mut key);
        match hmac_sha(&key, inputs) {
            Ok(h) => h,
            Err(_) => {
                assert(false);
                [0u8; 20]
            },
        }
    }
}

/// Little-endian 32-bit value at `p`.
pub open spec fn le_u32(b: Seq<u8>, p: int) -> u32 {
    (b[p] as int + b[p + 1] as int * 0x100 + b[p + 2] as int * 0x1_0000 + b[p + 3] as int * 0x100_0000) as u32
}

/// Little-endian 64-bit value at `p`.
pub open spec fn le_u64(b: Seq<u8>, p: int) -> u64 {
    (le_u32(b, p) as int + le_u32(b, p + 4) as int * 0x1_0000_0000) as u64
}

/// The RSA key header at the start of stored key bytes.
pub open spec fn key_header(b: Seq<u8>) -> ExCryptRsa {
    ExCryptRsa { num_digits: le_u32(b, 0), pub_exponent: le_u32(b, 4), reserved: le_u64(b, 8) }
}

/// The first `m` words after the key header.
pub open spec fn key_words(b: Seq<u8>, m: int) -> Seq<u64> {
    Seq::new(m as nat, |k: int| le_u64(b, 16 + 8 * k))
}

/// The bytes a private key is read from: an imported key, else the key vault
/// from the key's offset on.
pub open spec fn prv_key_source(vault: Seq<u8>, imported: Seq<(u32, Seq<u8>)>, idx: u32) -> Option<Seq<u8>> {
    match find_key(imported, idx) {
        Some(k) => Some(k),
        None => match key_properties_spec(idx) {
            Some((off, size)) => if vault.len() > 0 {
                Some(vault.skip(off as int))
            } else {
                None
            },
            None => None,
        },
    }
}

/// The word count a stored private key declares (byte-swapped in its header).
pub open spec fn prv_digits(src: Seq<u8>) -> int {
    bswap32(le_u32(src, 0)) as int
}

/// Stored key bytes long enough for the private-key operation they declare.
pub open spec fn prv_source_ok(src: Seq<u8>) -> bool {
    src.len() >= 16 && (1 <= prv_digits(src) <= 0x40 ==> src.len() >= 16 + 8 * prv_words_needed(prv_digits(src)))
}

fn read_le_u32(b: &[u8], p: usize) -> (r: u32)
    requires
        p + 4 <= b@.len(),
    ensures
        r == le_u32(b@, p as int),
{
    let len = b.len();
    assert(p + 4 <= len);
    (b[p] as u32) + (b[p + 1] as u32) * 0x100 + (b[p + 2] as u32) * 0x1_0000 + (b[p + 3] as u32) * 0x100_0000
}

fn read_le_u64(b: &[u8], p: usize) -> (r: u64)
    requires
        p + 8 <= b@.len(),
    ensures
        r == le_u64(b@, p as int),
{
    let len = b.len();
    assert(p + 8 <= len);
    (read_le_u32(b, p) as u64) + (read_le_u32(b, p + 4) as u64) * 0x1_0000_0000
}

/// The signature block the console key signs: the PKCS #1 block of the hash
/// (format 0, 128 bytes) as 16 big-endian words.
pub open spec fn sign_block_words(hash: Seq<u8>) -> Seq<u64> {
    Seq::new(16, |k: int| be_word(pkcs1_block(hash, 0, 128), k))
}

/// What signing does to the output buffer and returns, for what OpenSSL
/// returned to the private-key operation on the signature block.
pub open spec fn sign_effect(
    src: Seq<u8>,
    outcome: Option<Seq<u8>>,
    hash: Seq<u8>,
    old_out: Seq<u8>,
    new_out: Seq<u8>,
    r: i32,
) -> bool {
    match prv_crypt_result(key_header(src), outcome) {
        Some(w) => r == 1 && new_out == old_out.take(0x1A8) + words_be_bytes(
            w + sign_block_words(hash).skip(prv_digits(src)),
        ) + old_out.skip(0x228),
        None => r == 0 && new_out == old_out,
    }
}

/// The words a stored private key declares.
pub open spec fn src_words(src: Seq<u8>) -> Seq<u64> {
    key_words(src, prv_words_needed(prv_digits(src)))
}

/// Whether the private-key operation with the stored key `src` on `input`,
/// when it succeeds, gives `src_prv_crypt` (see `prv_crypt_admits`).
pub open spec fn src_admits(src: Seq<u8>, input: Seq<u64>) -> bool {
    &&& 1 <= prv_digits(src) <= 0x40
    &&& prv_crypt_admits(input, src_words(src), bswap32(key_header(src).pub_exponent), prv_digits(src))
}

/// The result words of the private-key operation with the stored key `src`.
pub open spec fn src_prv_crypt(src: Seq<u8>, input: Seq<u64>) -> Seq<u64> {
    prv_crypt_spec(input, src_words(src), bswap32(key_header(src).pub_exponent), prv_digits(src))
}

/// Words written back as big-endian bytes.
pub open spec fn words_be_bytes(w: Seq<u64>) -> Seq<u8> {
    Seq::new(8 * w.len(), |i: int| be_bytes64(w[i / 8])[i % 8])
}

/// The header and the words a stored private key declares (none when its
/// count is out of range).
fn parse_prv_key(src: &[u8]) -> (r: (ExCryptRsa, Vec<u64>))
    requires
        prv_source_ok(src@),
    ensures
        r.0 == key_header(src@),
        1 <= prv_digits(src@) <= 0x40 ==> r.1@ == key_words(src@, prv_words_needed(prv_digits(src@))),
{
    let header = ExCryptRsa {
        num_digits: read_le_u32(src, 0),
        pub_exponent: read_le_u32(src, 4),
        reserved: read_le_u64(src, 8),
    };
    let n = swap_dword(header.num_digits);
    let m: usize = if 1 <= n && n <= 0x40 {
        2 * (n as usize) + 5 * ((n as usize) / 2)
    } else {
        0
    };
    let slen = src.len();
    let mut words: Vec<u64> = Vec::new();
    let mut k: usize = 0;
    while k < m
        invariant
            k <= m,
            slen == src@.len(),
            m > 0 ==> src@.len() >= 16 + 8 * m,
            words@ == key_words(src@, k as int),
        decreases m - k,
    {
        words.push(read_le_u64(src, 16 + 8 * k));
        k += 1;
        assert(words@ =~= key_words(src@, k as int));
    }
    (header, words)
}

impl KeyManager {
    pub open spec fn prv_source(&self, idx: u32) -> Option<Seq<u8>> {
        prv_key_source(self.vault(), self.imported(), idx)
    }

    fn prv_source_bytes(&self, idx: u32) -> (r: Option<Vec<u8>>)
        ensures
            match self.prv_source(idx) {
                Some(v) => r matches Some(x) && x@ == v,
                None => r is None,
            },
    {
        proof {
            use_type_invariant(self);
        }
        match self.find_imported(idx) {
            Some(i) => {
                let k = &self.imported[i].1;
                let v = slice_to_vec(k.as_slice(), 0, k.len());
                assert(k@.subrange(0, k@.len() as int) =~= k@);
                Some(v)
            },
            None => match key_properties(idx) {
                Some((off, _)) => {
                    if self.vault.len() == 0 {
                        return None;
                    }
                    let v = slice_to_vec(self.vault.as_slice(), off as usize, self.vault.len());
                    assert(v@ =~= self.vault@.skip(off as int));
                    Some(v)
                },
                None => None,
            },
        }
    }

    /// The private-key operation for key 0x33 or 0x35 (see
    /// `ExCryptBnQwNeRsaPrvCrypt`), on the key's stored header and words; 0
    /// (output left as it was) for any other key, a key the manager does not
    /// have, or a failed operation.
    pub fn qw_ne_rsa_prv_crypt(&self, key_idx: u32, input: &[u64], output: &mut [u64]) -> (r: i32)
        requires
            self.prv_source(key_idx) matches Some(src) ==> prv_source_ok(src) && (1 <= prv_digits(src) <= 0x40
                ==> input@.len() >= prv_digits(src) && old(output)@.len() >= prv_digits(src)),
        ensures
            match self.prv_source(key_idx) {
                Some(src) => if key_idx == 0x33 || key_idx == 0x35 {
                    exists|outcome: Option<Seq<u8>>| #[trigger] prv_crypt_effect(
                        key_header(src),
                        outcome,
                        old(output)@,
                        final(output)@,
                        r,
                    )
                } else {
                    r == 0 && final(output)@ == old(output)@
                },
                None => r == 0 && final(output)@ == old(output)@,
            },
            match self.prv_source(key_idx) {
                Some(src) => (key_idx == 0x33 || key_idx == 0x35) && src_admits(src, input@) && r == 1
                    ==> final(output)@ == src_prv_crypt(src, input@) + old(output)@.skip(prv_digits(src)),
                None => true,
            },
    {
        proof {
            use_type_invariant(self);
        }
        if key_idx != 0x33 && key_idx != 0x35 {
            return 0;
        }
        let src = match self.prv_source_bytes(key_idx) {
            Some(v) => v,
            None => {
                return 0;
            },
        };
        let (header, words) = parse_prv_key(src.as_slice());
        ExCryptBnQwNeRsaPrvCrypt(input, output, &header, words.as_slice())
    }

    /// Signs a hash with the console private key (0x33): the PKCS #1 block of
    /// the hash goes through the private-key operation and the result, as
    /// big-endian words, is written to `output[0x1A8..0x228]`; 1 then, 0 (output
    /// left as it was) when the operation gives nothing. The first 0x1A8 bytes
    /// of `output` are left as they were.
    pub fn console_private_key_sign(&self, hash: &[u8; 20], output: &mut [u8]) -> (r: i32)
        requires
            old(output)@.len() >= 0x228,
            self.prv_source(0x33) matches Some(src) ==> prv_source_ok(src) && (1 <= prv_digits(src) <= 0x40
                ==> prv_digits(src) <= 16),
        ensures
            final(output)@.len() == old(output)@.len(),
            match self.prv_source(0x33) {
                Some(src) => exists|outcome: Option<Seq<u8>>| #[trigger] sign_effect(
                    src,
                    outcome,
                    hash@,
                    old(output)@,
                    final(output)@,
                    r,
                ),
                None => r == 0 && final(output)@ == old(output)@,
            },
            match self.prv_source(0x33) {
                Some(src) => src_admits(src, sign_block_words(hash@)) && r == 1 ==> final(output)@ == old(
                    output,
                )@.take(0x1A8) + words_be_bytes(
                    src_prv_crypt(src, sign_block_words(hash@)) + sign_block_words(hash@).skip(prv_digits(src)),
                ) + old(output)@.skip(0x228),
                None => true,
            },
    {
        let mut block = [0u8; 128];
        let ghost b0 = block@;
        ExCryptBnDwLePkcs1Format(hash, 0, &mut block, 128);
        assert(b0.skip(128) =~= Seq::<u8>::empty());
        assert(block@ =~= pkcs1_block(hash@, 0, 128));
        let mut sig_buf: Vec<u64> = Vec::new();
        let mut k: usize = 0;
        while k < 16
            invariant
                k <= 16,
                block@ == pkcs1_block(hash@, 0, 128),
                sig_buf@ == sign_block_words(hash@).take(k as int),
            decreases 16 - k,
        {
            sig_buf.push(read_be_word(&block, k));
            k += 1;
            assert(sig_buf@ =~= sign_block_words(hash@).take(k as int));
        }
        assert(sig_buf@ =~= sign_block_words(hash@));
        let mut result = sig_buf.clone();
        assert(result@ =~= sig_buf@);
        let ghost before = result@;
        let r = self.qw_ne_rsa_prv_crypt(0x33, sig_buf.as_slice(), result.as_mut_slice());
        let ghost o = match self.prv_source(0x33) {
            Some(src) => choose|outcome: Option<Seq<u8>>| #[trigger] prv_crypt_effect(
                key_header(src),
                outcome,
                before,
                result@,
                r,
            ),
            None => None,
        };
        if r == 0 {
            proof {
                if let Some(src) = self.prv_source(0x33) {
                    assert(sign_effect(src, o, hash@, old(output)@, output@, r));
                }
            }
            return 0;
        }
        let mut i: usize = 0;
        while i < 16
            invariant
                i <= 16,
                result@.len() == 16,
                output@.len() == old(output)@.len(),
                old(output)@.len() >= 0x228,
                forall|q: int| 0 <= q < 0x1A8 ==> output@[q] == old(output)@[q],
                forall|q: int| 0x1A8 + 8 * i <= q < output@.len() ==> output@[q] == old(output)@[q],
                forall|q: int| 0x1A8 <= q < 0x1A8 + 8 * i ==> output@[q] == words_be_bytes(result@)[q - 0x1A8],
            decreases 16 - i,
        {
            let w = result[i];
            let p = 0x1A8 + 8 * i;
            output[p] = (w >> 56u64) as u8;
            output[p + 1] = (w >> 48u64) as u8;
            output[p + 2] = (w >> 40u64) as u8;
            output[p + 3] = (w >> 32u64) as u8;
            output[p + 4] = (w >> 24u64) as u8;
            output[p + 5] = (w >> 16u64) as u8;
            output[p + 6] = (w >> 8u64) as u8;
            output[p + 7] = w as u8;
            proof {
                assert forall|q: int| 0x1A8 + 8 * i <= q < 0x1A8 + 8 * i + 8 implies output@[q] == words_be_bytes(
                    result@,
                )[q - 0x1A8] by {
                    assert((q - 0x1A8) / 8 == i as int);
                }
            }
            i += 1;
        }
        assert(output@ =~= old(output)@.take(0x1A8) + words_be_bytes(result@) + old(output)@.skip(0x228));
        proof {
            let src = self.prv_source(0x33)->0;
            assert(sign_effect(src, o, hash@, old(output)@, output@, 1));
        }
        1
    }
}

proof fn lemma_find_consistent(s: Seq<(u32, Seq<u8>)>, idx: u32)
    ensures
        find_index(s, idx) >= 0 ==> 0 <= find_index(s, idx) < s.len() && s[find_index(s, idx)].0 == idx
            && find_key(s, idx) == Some(s[find_index(s, idx)].1),
        find_index(s, idx) == -1 <==> find_key(s, idx) is None,
        find_index(s, idx) >= -1,
    decreases s.len(),
{
    if s.len() > 0 {
        lemma_find_consistent(s.drop_last(), idx);
    }
}


/// The key vault's layout: keys 0x00 to 0x38 lie in index order without
/// overlapping, key 0x44 lies between the end of key 0x37 and the end of the
/// vault, every key lies inside the 0x4000-byte vault, and no other index
/// names a key.
pub proof fn lemma_key_vault_layout(i: u32)
    ensures
        i < 0x38 ==> key_properties_spec(i) is Some && key_properties_spec((i + 1) as u32) is Some
            && key_properties_spec(i).unwrap().0 + key_properties_spec(i).unwrap().1 <= key_properties_spec(
                (i + 1) as u32,
            ).unwrap().0,
        key_properties_spec(i) matches Some(p) ==> 0 < p.1 && p.0 + p.1 <= 0x4000,
        key_properties_spec(i) is Some <==> (i <= 0x38 || i == 0x44),
        key_properties_spec(0x44) == Some((0x1DF8u32, 0x100u32)),
{
}

} // verus!
