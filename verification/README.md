# obscura

Building blocks of a headless browser, written in Verus: what each function returns
and changes is stated in its contract and proved. For a database in a file this is not
so: others may write to the file as well, so the contracts say which file was opened,
which statements were run on it with which values, which query was asked, and what is
made of its answer, but not what the file holds, what the answer is, or what an operation
leaves behind.

- `src/dom` reads WebVTT subtitle tracks.
- `src/net` checks content security policies and subresource integrity.
- `src/browser` keeps the pipelines of frames and tabs.
- `src/media` holds the state of media players and decides for GStreamer.
- `src/render_gpu` and `src/js` build display lists, render pictures, and bring OpenGL
  contexts up and down through EGL.
- `src/storage` is the local storage and the page database on SQLite: `tables` is what
  the database holds, `sqlite` what each statement does to it, `model` what each
  operation does, `consistency` what every operation keeps, and `laws` what holds from
  one call to another.
- `src/text` and `src/scan` are the text functions that the others share, as
  mathematics and as code.

Coordinates, volumes and ratios are type parameters of the library. `app` fills them in
with floating point, puts the library behind locks and tasks, and makes the calls into
EGL, OpenGL and GStreamer.

What is taken on trust is marked `external_body` or `assume_specification`: SQLite
through `rusqlite`, JSON through `serde_json`, SHA-256, base64, and a few functions of
the standard library.
