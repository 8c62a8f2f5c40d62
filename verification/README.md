# metalgear

A vector of `Copy` elements, and a single-value variable, each kept in a
device buffer whose byte length is whole memory pages.

- `src/` is the verified library (Verus): page rounding (`util`), the
  allocation plan `MemAlign`, the vector `GPUVec` with its operations, the
  variable `GPUVar`, and proof functions stating the laws that relate the
  operations (`laws`). The library models a buffer by the elements it holds,
  its capacity in elements and its planned byte length.
- `app/` is the thin layer over Metal: it allocates device buffers of the
  length the library planned, copies the elements into device memory, hands
  out raw pointers, keeps the global device, and extends command encoders.
- `tests/` exercise the library.
