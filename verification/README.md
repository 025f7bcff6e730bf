# audioadapter

Traits and wrappers for reading and writing audio samples stored in buffers of
different layouts and sample formats, with their behaviour stated in contracts
and proved by Verus.

A buffer is a grid of samples addressed by channel and frame. The traits
`Adapter` and `AdapterMut` model it by `spec_channels`, `spec_frames` and
`spec_sample`; a write of a value stores `spec_stored(channel, frame, value)`.

## Layout

- `src/traits.rs`: the `Adapter` and `AdapterMut` traits and their provided
  methods (copying between channels, frames, slices and other buffers, filling,
  moving frames).
- `src/direct.rs`, `src/owned.rs`, `src/dummy.rs`: wrappers for slices, vectors
  and nested slices in interleaved or sequential order, sparse buffers that store
  only some channels, owned buffers, and a constant buffer.
- Each wrapper over a borrowed mutable buffer states, in `new_mut`, that its
  storage is the caller's buffer, and `lemma_storage` gives what that buffer
  holds once the wrapper is no longer used.
- `src/bytes.rs`: wrappers for raw byte buffers holding samples in one of the
  formats of `src/sample.rs`, read and written as numbers.
- `src/sample.rs`, `src/rawbytes.rs`: the byte formats of samples (8 to 64 bit
  integers in both byte orders, 24 bit formats packed or padded, G.711 A-law and
  mu-law, and the byte order of floats), modelled by the byte sequences they hold.
- `src/utils.rs`: copying between any adapter and a flat slice.
- `src/iterators.rs`: iteration over channels and frames.
- `src/slicetools.rs`: moving a region of a slice within it.
- `src/laws.rs`: properties that relate several operations.
- `app/`: what the verified crate leaves out: conversion to and from floating
  point, statistics, `std::io` reading and writing, adapters for the buffer types
  of other audio crates, and the error type's `Display`.
