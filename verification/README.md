# jepa

The core of `jepctl`, a local runtime for JEPA-style encoders, written in Verus:
each function states what it does in `requires`/`ensures` and Verus proves it.

## Layout

- `src/` — the verified library.
  - `auth`, `gate`: API keys stored as SHA-256 digests, constant-time token checks,
    roles, expiry, the request gate (401/403), the session-token rule, the audit trail.
  - `config`, `catalog`, `manifest`, `download`: the storage layout, model names
    resolved inside the models directory, the built-in catalog, `Jepafile.json`
    validation, hub URLs and download progress.
  - `media`, `wav`, `clip`, `frame`, `camera`, `canvas`, `data_uri`: container
    sniffing, WAV parsing, GIF/WebP frame decoding under a frame and pixel budget,
    crops and the model view, thumbnails, inline base64 images.
  - `window`, `named`, `projection`: the camera frame ring and the microphone sample
    ring, named snapshots in save order, the deterministic projection stream.
  - `registry`, `keyed`: the gesture registry (a sorted map), bundle import/export.
  - `robot`, `protocol`, `agent`, `companion`: the command gate of the arm (approval,
    E-stop), the servo bus framing, the phases of the latent agent (converge,
    plateau, periodic re-check), cue books and trigger cool-downs.
  - `api`, `types`, `vit`, `text`: request payload rules (registration names, sample
    sources, registry scopes), error kinds, checkpoint name candidates and coverage,
    text helpers.
- `tests/` — tests of the library's public functions.
- `app/` — the `jepctl` command line (model store, pulls, gesture bundles, API keys):
  file and network I/O around the library; and the floating-point side of the
  runtime (gesture matching, audio features, the arm's world model and agent, the
  companion's animation, the scene predictor, the arm overlay), built on the
  library's integer and state-machine parts.

Not part of this crate: the HTTP server and its embedding stream, the camera and
microphone capture threads, the background observers, the desktop window and the
model engine (tensor inference). Their decisions are in the library (`gate`, `api`
with the stream cursor and the request rules, `camera::camera_step` for the capture
fallback to the synthetic pattern, `agent`, `companion`, `registry`); the device,
network and tensor work around them is not.

Outside crates the library calls (`sha2`, `subtle`, `rand`, `chrono`, `image`,
`base64`) are reached through small trusted wrappers whose contracts say what the
crate's source guarantees; everything else is proved.
