# sysmon

A desktop system monitor (CPU, memory, network, processes, temperatures,
GPU, storage) with an Apple-style widget dashboard, whose decision logic is
a library verified with Verus.

- `src/` — the verified library: grid packing of dashboard cards
  (`layout`), byte and uptime formatting (`charts`, `system`), rolling
  sample windows (`history`), the widget and panel registry (`widgets`),
  dashboard layout and reordering (`dashboard`), tab visibility, order and
  selection (`tabs`), persisted settings (`settings`), and the storage
  explorer with its fast-scan tree (`paths`, `explorer`, `mft_scan`).
- `app/` — the egui/eframe program around it: reading the OS through
  sysinfo and NVML, background folder walks, and all drawing.
- `tests/` — tests of the library.
