# wifl

Fetches Windows ESD images from the WOR Project catalogue and installs them
to a bare-metal disk through an arrow-key driven terminal interface.

The decisions the installer makes are a library verified with Verus
(`src/`); the terminal, the network, the file system and the external
programs are driven by a thin program around it (`app/`).

## Layout

- `src/text.rs` — character-level text: trimming, searching, lines,
  splitting, numbers, paths, ordering.
- `src/api.rs` — where the catalogue server answers.
- `src/catalog.rs` — the versions and catalogue XML answers (parsed by
  `roxmltree`, read by verified code).
- `src/wizard.rs` — the menus of the installer: versions, builds,
  architectures, languages, edition groups, confirmation; command line,
  root check, where ESD files are kept.
- `src/menu.rs` — menu navigation, the full-screen interface state, the
  download progress bar.
- `src/download.rs` — SHA-256 checking (`sha2`, `hex`) and the download
  procedure as a state machine.
- `src/install.rs` — what `lsblk`, `wimlib-imagex info` and `efibootmgr`
  print; partition names; the installation procedure as a state machine.
- `src/bcd.rs` — GUID parsing, the BCD GPT device element, the answers of
  the boot tools.
- `src/tools.rs` — the external programs and where they are looked for.
- `src/update.rs` — self-update decisions.
- `tests/` — tests of the library.
- `app/` — the program: terminal drawing (`crossterm`), HTTP (`reqwest`),
  files and processes.

## Usage

```sh
sudo wifl
```

Navigate with `↑ ↓` or `j k`, confirm with `Enter`, abort with `Esc` or `q`.
ESD files are cached in `~/Documents/ESDs/` and verified by SHA-256 before
use.

## Building

The release tag comes from `TAG` (or `WIFL_BUILD_TAG`) when the program is
built, `dev` otherwise; only tagged builds update themselves. The UEFI:NTFS
bridge image the installer writes is the file `WIFL_UEFI_NTFS` names when
the program is built (else `res/uefi-ntfs.img` in the source tree), read when
the program starts; `WIFL_UEFI_NTFS` set at run time is tried next.
