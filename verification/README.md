# pyrite

World generation in the style of Minecraft Beta 1.7.3 for a Bedrock server: seeded random
streams, noise tables, terrain surface passes, and chunk population (trees, plants, lakes,
dungeons, springs, snow, and the nether's fire, glowstone and mushrooms).

- `src/` is the library, written in Verus, and every function in it is verified: the
  Java-style random generator and its draws, seed parsing, permutation tables, the surface
  passes, and the population features (trees other than big oaks, plants, lakes other than
  the ellipsoids of cells they fill, dungeons, which veins go where, springs, snow, the overworld's order of
  features, and the nether's features), each against a
  specification of the blocks it leaves and the draws it makes. Population writes into a
  `QuadChunkBuffer` (an owner chunk and its three forward neighbours); most contracts are
  stated over its view, `QuadView`, and over `Outcome`, the quad and generator state a step
  leads to. Of caves, the library holds which chunks feed a column and their seeds, the
  tunnel counts and start points, the fluid guard and what carving does to a block; the
  tunnel paths themselves are not in it.
- The generators' terrain, climate, tunnels, big oaks, lake shapes, vein spheres and population passes
  reach the library through traits (`TerrainSource`, `ClimateSource`, `TreeSource`,
  `CaveCarving`, `OverworldFeatures`, `PopulationSource`), whose results the contracts
  name but do not compute.
- `app/` is the program around it: the floating-point parts (density fields, noise
  sampling, tunnel paths, lake shapes, the spheres of a vein, big oaks), the block registry, and chunk
  assembly into the server's format.
- `tests/` runs the library on small hand-built worlds.
