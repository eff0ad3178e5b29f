# arkbox

The rules behind the ArkBox archive tool (zip, 7z, plain tar, tar.gz/bz2/xz/zst,
single-stream gz/bz2/xz/zst, read-only RAR), written in Verus and proved
against their contracts.

- `src/` is the verified library: format detection and naming, path
  sanitising and destinations, the AppleDouble (`._name`) byte layout, DOS
  time conversion, error classification, what each engine decides entry by
  entry, the 7-Zip command line and the parsing of its listing, the Quick
  Look page, presets, the edit-session rules, the keychain commands and
  answers, the Windows context-menu entries, and the single-stream codecs
  (called through `flate2`, `bzip2`, `xz2` and `zstd`).
- `app/` is ordinary Rust around it: the engines that open, walk and write
  archives and files, the command-line tools, the commands of the GUI, the
  macOS keychain and Windows registry calls, and the serde copies of the
  library's types.
- `tests/` exercises the library from outside, against concrete values.
