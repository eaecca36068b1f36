# rpeg

The integer core of a small lossy image compressor, verified with Verus.

- `src/array2.rs`: `Array2<T>`, a width x height grid stored in row-major
  order, with lemmas on row-major indexing (bounds, injectivity,
  read-after-write, extensionality).
- `src/codec.rs`: trimming a decoded image to even dimensions
  (`process_input`, `compress`), the 2x2 block traversal (`block_ops`), and
  the laws of trimming and of the block traversal.
- `src/quant_ops.rs`: `smax`, the largest signed value of a bit field.
- `app/`: the command-line program: reading PPM files with `csc411_image`,
  and the floating-point stages (color conversion, cosine transform,
  quantization with `csc411_arith`) built on the verified grid and traversal.
