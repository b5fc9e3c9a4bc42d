# oscillot

The capture logic of a JACK oscilloscope, verified with Verus.

- `src/ring.rs`: the ring of recorded samples (`Scope`), how incoming frames
  are written into it, and the trace drawn from it.
- `src/spectrum.rs`: the input handed to the spectrum and the bins drawn.
- `src/gl_status.rs`: what a GL compile or link status comes to.
- `src/laws.rs`: properties that span these operations.
- `app/main.rs`: the GTK window, the GL drawing and the JACK client.
