# voxel_compare

A voxel terrain library with two renderers in mind: face-culled chunk meshes
for rasterisation, and a sparse voxel octree for ray marching.

- `src/` is the verified library (Verus): chunk generation from a heightmap,
  mesh building with face culling, materials and packed colours, octree
  construction with its descent law, word buffers as upload bytes, chunk
  layout, and the renderer's key and frame decisions.
- `tests/` exercises the library on concrete values.
- `app/` is the windowed program around it (winit, wgpu, glam, Perlin
  noise): everything floating point or GPU-facing, and the WGSL of the two
  render passes (`app/shaders.rs`).
