# youtube_transcribe

Transcripts of YouTube videos and of local media, on the desktop. yt-dlp fetches captions and media,
ffmpeg extracts the sound, whisper.cpp transcribes it, and the two transcripts of a video are merged
into one that has Whisper's prose and the names that the captions know.

`src/` is the library. It is written in Verus: every function states what it returns, and the
proofs are checked with it.

- Text: `text`, `trim`, `find`, `number`.
- Subtitles: `srt` reads and writes SubRip files; `captions` makes plain text of caption files;
  `srt_laws` proves that what is written is read back.
- The merge: `tokens`, `align`, `edit`, `vocab`, `metadata`, `replacement`, and `hybrid`, which joins
  them; `hybrid_laws` and `hybrid_files` state what holds of every merge, `bounds` what it counts at
  most.
- Files and tools: `names`, `artifacts`, `files`, `models`, `tools`, `moving`, `commands`,
  `arguments`.
- Jobs: `youtube_job`, `local_job` and `merge_job`, with `caption_job` and `media_job`. A job is told
  how each action ended and answers with notices and the next action; `events` has what they share,
  and `youtube_laws` what holds of every job for a video.

The library reads no file, runs no tool and knows no clock. That is done in `app/`, a Tauri
application that performs the actions of the jobs.

Some characters and texts are left to the standard library: which characters beyond ASCII are letters
or capitals, their other case, the escapes within a quoted argument, and text from bytes that are not valid
UTF-8. Contracts speak of these results by name.

The outputs of a job for a video named `video-title` are named after where they come from:

```text
video-title.youtube-captions.txt
video-title.youtube-captions.srt
video-title.whisper.txt
video-title.whisper.srt
video-title.hybrid.txt
video-title.hybrid.srt
video-title.hybrid.flagged.txt
```
