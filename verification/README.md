# explora

Verified core of a procedural flight renderer: a glider over a procedural
landscape, drawn with Vulkan on Linux.

- `src/` is the library. It holds what the renderer decides and computes in
  whole numbers: flags and presets, input, frame pacing and benchmarks, swapchain
  bookkeeping, device and queue choice, mesh topology, vertex and descriptor
  layouts, command order, texture plans, vapor pools and sound output. Every
  function states what it returns, and Verus proves it. Public proof functions
  state what holds of several functions together.
- `app/` is the program around it: the window, the Vulkan calls, the sound
  device, files, and everything in floating point.
- `tests/` runs the library on concrete values.

The library trusts a few outside functions, each behind one small wrapper whose
comment says what is taken on trust: the JPEG decoder of `image`,
which is given files of a plain form only, the error
numbers of `libc`, and the standard library's sort of integers.
