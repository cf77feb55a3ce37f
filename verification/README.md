# bmm350

A driver for the Bosch BMM350 magnetometer, verified with Verus.

The driver (`src/device.rs`) talks to the sensor through a register interface
(`src/interface.rs`) over any I2C bus, and waits on any clock (`src/bus.rs`).
It initializes the device, reads its one-time-programmable memory, changes power
modes, resets the sensor, configures rate, axes, interrupt and watchdog, and
reads measurements.

## What is proved

Every operation has a contract that says which register accesses and pauses it
makes, in which order, what it does with each answer, and what it returns. The
contracts hold for every device and for every failure of the bus.

| Module | Content |
| --- | --- |
| `register` | the register map |
| `types` | settings, results, errors |
| `codec` | the arithmetic of the registers |
| `bus` | what the driver needs of a bus and a clock |
| `interface` | register access over I2C |
| `trace`, `protocol` | the history of a device, and the histories that an operation can have |
| `link` | register access and a clock, with a record of their use that only single accesses and pauses add to |
| `device` | the driver |
| `faults` | a failed access ends an operation, with its error |
| `verdicts` | any other error is called for by the answers of the device |
| `determinism` | the answers of the device decide what an operation does |
| `bounds` | how long an operation takes at most, and which registers it writes |
| `outcomes` | what a result says about the device |
| `frames` | how the accesses appear on the bus |
| `playback`, `replay` | a bus that answers from a list, and how an operation is continued with it |

No item is trusted without proof: the library does not call the hardware. `app/`
is a front end for embedded-hal. It runs an operation on the replies that the
device has given so far, performs the request that is pending, and runs it again
with one reply more; `replay` proves that this continues the operation.
