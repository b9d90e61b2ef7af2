# live-translator

Live speech recognition and translation that runs on the local machine: Whisper recognizes,
Marian OPUS-MT translates, both through `candle`.

- `src/` is the library, verified with Verus: voice activity detection, the state machine of
  the main loop, the decoding of recognized and translated text, vocabularies, WAV files, the
  choice of an audio source, and the commands and events of the protocol.
- `app/` is the program around it: command line, audio devices, threads, and whatever is
  computed in floating point.
- `tests/` runs the library on concrete values, with tiny networks in place of the real ones.

Samples, energies and log-probabilities are floating-point numbers. The library moves samples
without looking at them, and compares energies and log-probabilities by their bit patterns
(`single`). What a network computes is described by relations (`engine`): a contract says what
a network was given and what is made of its reply, for every reply that it may give.
