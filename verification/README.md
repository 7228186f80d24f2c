# lowpass_analysis

A tool that decodes a clean and a lowpassed video with FFmpeg, maps their
frames into libplacebo on a Vulkan device that it shares with its egui window,
and reuses libplacebo textures between frames.

- `src/` is the verified library (Verus): the decisions the tool takes between
  FFmpeg, libplacebo and Vulkan, over plain values.
  - `libplacebo/`: log levels and logs, GPUs, textures and mapped frames, the
    Vulkan import parameters.
  - `vulkan/`: queue family selection, extension lists, feature chains
    (`VkPhysicalDeviceFeatures2`), the instance version check, adapter choice.
  - `frame_iterator.rs`: which hardware decoders and pixel formats to try, and
    the decoding loop's next step.
  - `texture_cache.rs`: textures kept per frame shape.
- `app/` is the program around it: the FFmpeg, libplacebo, Vulkan, wgpu and
  egui calls, converting their values to and from the library's.
- `tests/` exercises the library on concrete values.
