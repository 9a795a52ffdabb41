# interlink_worldgen

Verified integer kernels of a deterministic planetary world generator.

The generator works on a geodesic sample mesh and builds, stage by stage,
plates, crust, lithosphere, climate and hydrology. This crate holds the parts
of those stages that decide with integers, and proves them with Verus:

- `fnv`, `hex`, `seed`: FNV-1a over little-endian encodings, the SplitMix64
  finalizer, stage seeds, `{:016x}` rendering, and recognition of seeds that
  encode the ancestral plate partition.
- `digests`, `lineage`: the stage digests, each stated as FNV-1a over an
  explicit byte stream (floating-point fields enter as bit patterns).
- `graph`: neighbor lists of the mesh, reachability inside a mask, connected
  component labelling, majority smoothing, plate cores and owner validation.
- `flow`: residual max flow (level graph plus blocking flow) used to cut weak
  corridors. Verus proves that `max_flow` keeps each edge pair's combined
  capacity, keeps every inner node's total residual capacity (flow in equals
  flow out) and leaves no residual path from source to sink. By the
  max-flow/min-cut theorem, which is not itself proved here, the result is a
  maximum flow and the nodes still reachable from the source are the source
  side of a minimum cut.
- `geology`: crust codes, boundary regimes and subduction polarity, and the
  two-pass stabilization of boundary kinds.
- `connectivity`: ranking of the detached pieces of a plate by size and the
  fate of each (accretion or microplate).
- `ancestry`: acceptance of the lake-sediment infill inputs (alignment and
  exact digest ancestry).
- `historical`, `events`, `plates`: ancestral plate budget, group merging and
  dense relabelling, the event skeleton of the ancestral history, fragment
  lineage and forward-state validation, removal of extinct plates.
- `fragment_split`: splitting of crust fragments along the final plate
  boundaries, one child per owning plate; a split keeps the lineage valid and
  every sample's fragment owned by the sample's plate.
- `drainage`: the downstream-order check, outlet and outlet-kind resolution,
  basin numbering, counts and the drainage digest.
- `structure`: inherited structures, the structural zones projected from them
  and their counts.
- `pipeline`: which generator produces the modern tectonics of a request, the
  refusal of blank seeds, and the checks that the tectonics and crust
  projected from the material history match the supplied ones.

`app/` holds the floating-point glue that feeds these kernels: motion bands
and boundary classification, buoyancy, the drainage processing order and
outlet routing, depression labelling, the scoring that picks which ancestral
plates merge, fragment seed choice, the contact scoring of plate
connectivity, bit patterns of float fields, and the thread-local
raw-tectonics scope. The floating-point stage generators themselves
(climate, erosion, terrain evolution, infill, topography, plate advection)
are not part of this crate.
