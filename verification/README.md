# tron

The camera-side logic of a hand-tracking rig (an RGB camera, an IR camera
with a face-authentication emitter, and a VL53L5CX time-of-flight sensor),
written in Verus: each function states what it does in `requires` /
`ensures`, and Verus proves it.

## Layout

- `src/` — the verified library:
  - frames and geometry: `frame`, `geometry`, `mirror`, `projection`,
    `upload`, `bitmap`, `raster`;
  - regions of interest: `exposure` (largest clipped rectangle, by a
    histogram stack scan), `blobs`, `hand`, `control`, `anchors`,
    `palm_outputs`;
  - sensors and devices: `tof` (sample lines of the depth sensor and a
    bounded buffer of samples), `uvc` (extension-unit payloads), `capture`,
    `config`;
  - timing and reporting: `camera_stats`, `calibration_latency`,
    `playground_latency`, `http`, `persistence`, `decimal`, `text`.
- `tests/` — tests that run the library on concrete values.
- `app/` — the program around it: command line, device I/O (V4L2 ioctls,
  serial port, uinput), the HTTP server, files, and the parts that work on
  floating-point numbers.
