# icp_practice

Point-to-plane alignment of point clouds by the iterative closest point method, verified
with Verus.

- `src/` is the verified library. Its computations are written against the trait
  `scalar::Scalar`; linear algebra over whole clouds and the search for nearest
  neighbours are passed in as functions, and the contracts say what they are given and
  what becomes of their results.
  - `scalar`, `order`, `extremes`, `sort`, `rows`: numbers, their order, sorting, picking.
  - `alignment`, `registration`: the arithmetic of one step.
  - `icp`, `iteration`: one iteration, and an alignment from start to end.
  - `determined`, `sampling`: how the results of several alignments relate.
  - `invariants`, `exact`, `rotations`, `rigidity`: what alignments keep, and what holds
    where arithmetic is exact.
  - `hypotheses`, `candidates`, `report`: the mirror images and rotations that are tried,
    which of them fits best, and what is recorded.
  - `morton`, `voxelization`, `reordering`: voxel-grid downsampling, and that it does not
    depend on the order of the points.
  - `operate_pcd`, `file_handler`, `trajectory`: clouds, their files, trajectories.
- `app/` is the program: floating-point numbers, files, threads and pictures.
- `tests/` runs the library on concrete values.

The calls into the `regex`, `rand` and `nohash-hasher` crates stand in the functions marked
`external_body`; their comments say what is taken from those crates without proof.
