# parallel_metal

A compiler and runtime plan for data-parallel Rust functions on Metal, verified with Verus.

A `#[parallel]` function ends in one iterator chain over tensors, or over the points of an extent.
The statements before the chain are ordinary Rust on the host; a local that they declare hides a
parameter of the same name, and a chain over such a local is one over an extent of the output's
rank. The chain is compiled to an element kernel: one thread computes one element of the output.

## Layout

- `src/` is the verified library.
  - `source`, `syntax`, `host`, `lower`, `expand`: from the syntax tree of a function to its kernel,
    with a diagnostic for everything that the device language does not hold.
  - `types`, `expr`, `statement`, `captures`, `kernel`, `layout`, `names`, `text`: the device
    language and its Metal source.
  - `extent`, `tensor`, `element`: logical sizes, points, contiguous tensors. Axis 0 is contiguous.
  - `runtime`, `execution`: what a dispatch checks and binds, and in what order the device is asked
    for what.
  - `scoping`, `meaning`: laws of compilation. Kernels are closed, loops end, host statements stay
    on the host, and each thread computes what the closure of the map computes for its element.
- `tests/` runs the library from outside.
- `app/` is the Metal side: shared buffers and the device (`lib.rs`), and the attribute
  (`attribute.rs`), which is the root of a procedural macro crate.

## Device language

Scalars are the fixed-width integers up to 64 bits and `f32`. A closure may hold typed `let`s,
assignments to `let mut` variables, `for` and `for_each` over ranges, arithmetic, comparisons, bit
operations, casts, `if` with `else`, and `sin`, `cos`, `abs`, `exp`, `tanh`. A bound of a range is a
literal or the length of an axis.

A closure may also read a tensor parameter at coordinates of its own choice, `left[(k, y)]`, and the
length of an axis of it, `left.extent()[0]`. The value of a typed `let`, or of the output, may be a
sum `(start..end).map(|k| term).sum()`, which one thread adds up in the order of the range.

A name that stands for an argument of the closure or for a scalar parameter keeps that meaning in
device code, also where the body declares a variable of the same name.
