# fcpe_mlxrs

A pitch (F0) estimator for speech and singing, in two parts.

- `src/` is the verified library. It holds the decisions of the pipeline, for
  any sample type and proved with Verus: the sample-rate reduction and plan of
  the polyphase resampler and the assembly of its output, the threadgroup
  sizing of the GPU resampler, the padding and framing of waveforms for the
  mel spectrogram, the local window of the pitch decoder, the anchors of the
  interpolation of unvoiced frames, the shapes of the network's layers and the
  checkpoint names of its parameters, and the reading of safetensors
  checkpoints.
- `app/` runs the network and the float arithmetic on MLX around that library.
- `extras/resample.metal` is the compute shader of the GPU resampler.
