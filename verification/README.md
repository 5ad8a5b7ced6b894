# stm32_can

A bxCAN driver for STM32F0 microcontrollers whose decisions are verified with Verus.

- `src/config.rs`: UAVCAN identifier encoding and the bit update used on the filter registers.
- `src/can.rs`: controller and filter parameters, and the register programme that initialisation carries out.
- `src/mailbox.rs`: choice of a transmit mailbox and the contents written into it.
- `src/irq.rs`: the interrupt handler as a function from the status it read to the steps it asks for.
- `src/filter_regs.rs`: what each register step does to the filter registers, and what the initialisation leaves in them.
- `src/payload.rs`: packing and unpacking of frame data words.
- `src/indicator.rs`: LED colours and brightness shown for a received frame.
- `app/`: the firmware, which reads and writes the peripheral registers and runs the RTIC tasks.
