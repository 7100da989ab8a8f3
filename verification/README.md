# gyoretu

A filter application for numbered PNG image sequences: sources are stacked
as layers with per-pixel compute filters, previewed in a window, and
rendered back to numbered files.

- `src/` is the verified library (Verus). It holds the project status model,
  the filter catalogue and each filter's parameter layout, layer editing,
  source import and sequence recognition, the frame scheduler, the texture
  slot assignment of imported frames, and the plan of compute passes that
  composes a frame. Float parameters are carried as `f32` bit patterns.
- `app/` is the windowed front end (wgpu, winit, egui): it performs the GPU
  passes, file input and output, YAML project files and the floating-point
  waveform evaluation that the library plans.
- `tests/` exercises the library on concrete values.
