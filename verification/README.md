# candle_gen_sd

The decisions behind two families of image generators, Stable Diffusion 3.5 and SDXL, as a verified
Verus library; the tensor work around them runs on candle.

- `src/` is the library. It holds no tensors: it lays out layers from a geometry, plans which rows of
  which delta an adapter adds to which weight, drives training and rendering as machines that name one
  action after the other, tokenizes and pads prompts, and checks requests, images and checkpoints.
  Floating-point values pass through it by their bit patterns.
  - `text`, `float`, `image`, `error`, `request`, `provider`: shared ground.
  - `tokenizer`, `json`, `rng`, `adapter`: the parts of the outside crates that it calls, with what is
    believed of them.
  - `definition`, `charsmap`: the parts of tokenizer definitions that are taken, those of CLIP and T5
    tokenizers among them. Any other part is refused before it reaches the tokenizer crate, which panics
    on some of them.
  - `factors`, `grouping`: adapter keys and how they are gathered into modules.
  - `sd3`: geometry, transformer layout and checkpoint paths, quantization, memory estimate, conditioning,
    adapters, provider.
  - `sdxl`: UNet and ControlNet layout, adapters, training run, render run, editing, reference images,
    provider.
- `tests/` runs the library against values, and against candle tensors where a plan is performed.
- `app/` is ordinary Rust: it loads weights, runs candle, reads files and repositories, and performs the
  actions that the library names.

Proof functions named `law_*` state what holds of several functions together.
