# rusty_mjpg

Streams a V4L2 webcam as MJPEG over HTTP (`/stream`, `/snapshot`).

- `src/` is the verified library: Huffman-table repair of camera frames
  (`huffman`, `capture`), the steps of a capture pass and the laws of their order (`capture_loop`), multipart framing with decimal lengths
  (`multipart`, `decimal`), the shared frame store and the per-client
  stream decisions (`store`, `stream`, `counter`, `listeners`), the choice
  of the capture format (`format`) and the HTTP replies (`reply`).
- `app/` runs the device, the HTTP server and the async loops, and hands
  the library plain values.
- `tests/` exercises the library on concrete frames.
