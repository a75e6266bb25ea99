# vibrometer

A vibrometer: a front end with an ADS1256 converter and a keyphasor input streams samples
over TCP to a desktop receiver, which records, shows and analyses them.

The library under `src/` is verified with Verus. It holds what is decided without a clock, a
socket, a bus or a file, and without floating-point arithmetic:

- `types`, `protocol`, `packing`, `wire`: the messages and their bytes.
- `ads1256`, `capture`, `reconfig`, `batch`, `link`, `config`: the front end. The driver and
  the tasks are machines that say what to do next and are told what came of it.
- `receiver`, `session`, `panel`, `chart`, `comments`: the receiver and its control panel.
- `store`, `text`: recordings on disk. The Parquet files themselves, and the range within a
  recording as JSON, are read and written in `app/`.
- `keyphasor`, `timeline`, `ranking`, `balance`, `report`: revolutions, and what is decided
  from measured values.

Each module ends in, or is interleaved with, proof functions named `law_...`: what holds of
the library as a whole, such as that a batch that the front end sends reaches the session
sample by sample.

Times are nanoseconds that the caller reads off a monotonic clock. `f64` values that are only
carried along or compared stand as their bits.

`app/` is ordinary Rust around the library: the receiver's window, listener, files and signal
processing (`app/main.rs`), and the front end's program (`app/firmware/main.rs`), which is
built for the ESP32-C3 on its own.
