# glimpse-speech

Speech-to-text with local and remote engines, an HTTP API and a command line,
written in Verus: the rules of the library are stated in contracts and proved.

## Layout

- `src/` is the library. Verus verifies it, save for the trusted items, which it
  believes: those marked `external_body` or `assume_specification`, and the
  names without a body that they speak of. The doc comment of each says which
  function of another crate it stands for and what it claims of it.
  - `text`, `paths`: texts and file paths
  - `itn`, `dictionary`: spoken numbers, and the user's terms
  - `models`, `download`: what belongs to a model, and fetching it
  - `engines`: what the engines need, are asked for, and hand back
  - `remote`: endpoints, requests, responses and errors
  - `service`, `provider`: the loaded model, and the way to a remote endpoint
    and back
  - `api`, `cli`: requests, answers and messages
  - `audio`, `vad`, `diarization`, `cleanup`: recordings, speech, speakers and
    tidying up
- `app/` reads files, talks to the network and runs the native engines. It
  hands the library plain values and does what the library says.
- `tests/` runs the library on concrete values.

Contracts speak of mathematical models: a text is a `Seq<char>`, and a data
type has a view where contracts compare its values as a whole. Public proof
functions named `law_` state what holds across functions. A path is read as Unix
or as Windows writes it: functions on paths take a `PathStyle`, which `app/`
gives.

Times in seconds are floating-point numbers, which the proofs do not cover.
Types that carry them take a type parameter; the library copies such values,
and `app/` computes with them.

## Native engines

The engines need native libraries and are off by default. `--cfg
whisper_engine`, `--cfg nvidia_engines`, `--cfg transcribe_engine`, `--cfg
apple_speech_engine`, `--cfg apple_cleanup` and `--cfg onnx_runtime` switch them
on. The last builds the Silero model into the program, from the file
`app/silero_vad_16k_op15.onnx`.
