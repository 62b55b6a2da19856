# zcore

Verified building blocks of the zCore kernel, for Apple Silicon and other machines,
and of the tasks that build and test it.

`src/` is the library, verified with Verus:

- `hw`: access to the machine. Drivers go through a bus that records every access;
  their contracts say which accesses they make, and how their results follow from
  what was read.
- `soc`, `nvme`: Apple's mailbox, DMA filter and coprocessor protocol, and the
  storage controller behind them.
- `irq`, `uart`, `gpu`, `display`: the interrupt controller, the serial port, and
  what is known of graphics.
- `boot`: entry from the boot loader, with the Apple device tree and flattened
  device trees.
- `hal`: the hardware abstraction layer.
- `fs`: finding the root file system on a disk.
- `sync`, `utils`: event buses and event listeners.
- `lang`, `start`: panics, and the order in which the kernel is started.
- `xtask`: plans for building, running and testing the kernel.
- `bytes`, `text`, `words`: numbers and texts.

`tests/` runs the library on a scripted machine. `app/` is the command line of the
tasks, and the code that touches the machine.
