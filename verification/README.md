# opfer

The receiving half of an optical file transfer. One device shows a file as an endless stream of
animated QR codes; this one points its camera at the screen and reads them.

- `src/` is the library, verified with Verus: cropping and scaling of luma planes, tiling of code
  grids, payload extraction, forwarding each frame once, the queues and the decisions of the
  pipeline's threads, the choice and the tuning of a camera, and the layout of requests to save a file.
- `tests/` draws codes and reads them back, and pins the rest down on values.
- `app/` is the program round the library: threads, cameras, files and the commands of the front end.

Two crates do work that the library does not do itself. `rxing` reads the codes: it may panic on an image
or not return, so `src/decoder.rs` hands out the images and takes the answers, whatever they are, and
`app/reader.rs` does the reading. `base64` writes payloads as text (`src/encoding.rs`). What is taken for
granted of it, and of `std::str::from_utf8` (`src/saving.rs`), stands above the functions that call them.

## Stages

| stage | decides | module |
|---|---|---|
| camera | which camera, how it is opened, tuned and closed | `camera_choice`, `camera`, `tuning`, `desktop` |
| capture | what of an image is kept | `plane`, `queue` |
| coordinator | previews, and frames for the workers | `coordinator`, `preview` |
| workers | what codes a frame holds, and which are new | `decoder`, `payload`, `dedup`, `worker` |
| watchdog | when the workers are replaced | `watchdog` |
| sender | what is sent, and when | `sender` |

A session is started and stopped as `session` says; received files are saved as `saving` and `naming`
say.
