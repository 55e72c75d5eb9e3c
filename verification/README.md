# gxbuild

A library for building and inspecting Xbox 360 NAND images, written in Verus.
The functions in `src/` carry `requires`/`ensures` contracts that Verus
proves; the calls into outside crates (`openssl`, `xecrypt`, `sha1`,
`crc32fast`) and a few std functions stand behind small `external_body`
wrappers whose contracts are trusted, each with a doc comment saying what it
claims of the outside code.

- `src/crypto` — RC4, SHA-1 and HMAC digests, the rotate-sum and SMC
  checksums, AES and RSA through `xecrypt` and `openssl`, multi-precision
  arithmetic for the signature check, and the key vault (`KeyManager`).
- `src/gxcore/images` — NAND layouts, spare areas and ECC, logical reads and
  writes, bad-block healing, byte-pattern signatures, and the checks and
  assembly around STFS packages.
- `src/gxcore/data` — the xeBuild INI, `options.ini`, patch (`.gxp`) files and
  the decisions of asset discovery.
- `src/gxcore` — the session, its command queue and the command handlers.
- `src/filesystem` — the Corona FlashFS metadata.
- `src/patcher` — raw and xeBuild patch application.
- `app/` — the command line: argument handling, file I/O, and the calls into
  the `stfs` crate (which panics on some malformed packages, so its calls run
  behind `catch_unwind`).
- `tests/` — tests run against the compiled library.

The image builder itself (assembling bootloaders, the key vault and FlashFS
into a new image) is not part of this project: the commands that need it
report that, and the library holds the decisions around it (`build_key`,
`prepare_build_target`, `build_output_image`).
