# mkvtrack

A terminal interface for looking at the audio and subtitle tracks in Matroska
files and changing their flags: which track is the default, which subtitle
track is forced, the track name, the language, and the accessibility flags. It
reads and writes Matroska itself.

The library under `src/` is written in Verus: what it reads, decides and writes
is stated in contracts and proved. The program under `app/` is ordinary Rust
round it, for the arguments, the disk, the threads and the terminal.

## Use

```
mkvtrack [OPTIONS] [PATH]...
```

`PATH` is a Matroska file or a directory of them; with no path the current
directory is used. Recognised extensions are `.mkv`, `.mka`, `.mks`, `.mk3d`
and `.webm`.

| Option | Meaning |
| --- | --- |
| `-r`, `--recursive` | descend into subdirectories |
| `-b`, `--backup` | copy each file to `<name>.bak` before its first write |
| `-l`, `--list` | print the tracks and exit, no interface |
| `-h`, `--help` | usage |
| `-V`, `--version` | version |

Nothing is written until `s` or `S` is pressed. Changed files are marked with
`*` in the file list. `?` shows the keys.

## Layout

| Module | Contents |
| --- | --- |
| `ebml` | VINTs, element headers, CRC-32, and an element tree that keeps what it does not understand |
| `mkv` | locating the Segment, its children and Tracks; the track view model |
| `edit` | saving, in place where Tracks fits and by a rewrite where it does not |
| `scan` | how far the background reading of the list has come |
| `app` | interface state, the edits it applies, and what each key does |
| `ui` | what the panes say, and how the screen is divided |
| `cli` | arguments, and the order of the file list |
| `text` | spelling numbers, padding, trimming and letter case |

Opening and saving do no reads themselves. `mkv::open::OpenTask` and
`edit::SaveTask` say which range of the file they want next and take the answer;
`MkvFile::open` and `edit::save` drive them over an image of the file in memory,
and `app/disk.rs` over a file on disk. What comes out is stated as a function of
what the file holds.

## What is proved

Each function states what it returns for every input. Beyond that, the laws of
the library are proof functions whose names begin with `law_`. The main ones:

* `edit::round_trip`: whichever way a file is saved, it opens again and its
  tracks say what they were set to say.
* `edit::in_place`: a save in place touches no byte outside the room of Tracks
  and the padding behind it.
* `edit::rewritten` and `edit::landing`: a rewrite keeps every child and what
  stands before and behind the Segment, its children fill the Segment, and every
  position of a child in SeekHead and Cues, and of itself in a cluster, says
  where that child stands now.
* `edit::refused`: a file that changed on disk is refused, and one whose
  children cannot all be found is never rewritten.
* `mkv::lazy`: opening reads no further than the header of the first cluster.
* `ebml::laws`: what is written for an element tree is read back. An element that
  is not understood survives byte for byte and in its place, and so does a master
  that was not changed and holds no padding and no checksum.
* `app::laws` and `app::key_laws`: an edit changes one track, there is one
  default track of a type, a late result never overwrites a loaded file.

A few calls are trusted rather than proved; each says so where it stands:
`String::push` and `String::pop` (`text`), `String::from_utf8_lossy`
(`ebml::value`), `str::to_lowercase` (`cli`) and ratatui's `Layout::split`
(`ui::areas`).
