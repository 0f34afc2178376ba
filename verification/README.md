# AmberHead OR100

The logic of a tube amplifier plugin, verified with Verus.

Audio samples, knob readings and filter weights cross the library as IEEE 754
bit patterns. `src/ieee.rs` says which number a pattern is; what the library
does with patterns (decode, compare, clamp, flush, narrow) is stated and proved
over those numbers. The amplifier's arithmetic itself is floating point and
lives in `app/`.

| Path | What is there |
| :--- | :--- |
| `src/ir.rs`, `src/wav_laws.rs` | WAV decoding, taps, the file browser's listing |
| `src/shared.rs`, `src/slot_laws.rs` | the lock-free handoff between editor and audio thread |
| `src/dsp/` | cabinet convolution, engine, tone stack network, ramps, stage boundaries |
| `src/params.rs` | the parameter schema and the control snapshot |
| `src/gui/` | the editor model, gestures, faceplate geometry and palette |
| `src/ieee.rs`, `src/text.rs` | bit patterns and text |
| `app/` | the plugin around the library: arithmetic, files, host and drawing |

Laws that relate several functions are public proof functions named `law_*`.
