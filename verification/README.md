# BaiTTS

Turns novels (`txt`, `epub`) into audiobooks, chapter by chapter, with the help of a MultiTTS
service. It runs from the command line or serves a web interface.

- `src/` is the library, verified with Verus: cutting books into chapters and chapters into batches,
  the voices of speakers, sound and lyrics, tasks and their states, paths, settings and titles.
- `app/` is the program around it: the command line, the web server, the speech service, and files.
- `tests/` holds the library's tests.

## Layout of the library

| Modules | What they are about |
| --- | --- |
| `text`, `search`, `order`, `number`, `path` | texts, numerals and paths |
| `patterns` | the patterns that texts are matched against |
| `extractor`, `markup`, `batches`, `lrc` | chapters, the markup that can be laid out, batches and lyric lines |
| `ai`, `dialogue`, `analysis`, `allocation`, `messages` | speakers, their analysis, their voices, and what is said of them |
| `api`, `audio`, `conversion`, `process` | requests for speech, and the sound of a book |
| `tasks`, `deletion`, `ids` | tasks, deleting them, and where their data lies |
| `args`, `settings`, `requests`, `titles`, `files`, `utils` | settings, requests and files |
