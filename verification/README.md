# psx

A PlayStation emulator core and the frame analysis of a fighting-game
learning environment, verified with Verus.

## Layout

- `src/` — the verified library.
  - `cpu_types`, `cpu`: instruction decoding, registers, coprocessor 0, and
    the CPU step as a function from state to next state.
  - `bus`, `memory_map`, `dma`, `interrupt_controller`: the memory map,
    memory control registers and access timings, RAM/BIOS access.
  - `system`: the emulator's run loop as decisions from control flags, and
    the CPU with its bus.
  - `bios`, `cdrom`, `rom`, `adpcm`, `container`: BIOS images, disc images
    (sectors, error check, system information, palettes and TIM images),
    ROM programs.
  - `digest`, `text`: SHA-256 and MD5 digests, text conversion.
  - `frame`, `vision`: images as pixel grids, and finding the two fighters
    in a frame: thresholds, masks, bounding boxes, centroids, region growing,
    colour tables, life bars.
- `tests/` — tests of the library.
- `app/` — the program around it: files, threads, logging, and the
  floating-point steps of the frame analysis.

## Not included

The crate has no graphical front end and no learning agent: the agent's
state and its updates are floating point, and a window toolkit drives the
front end, neither of which the verified library can hold.
