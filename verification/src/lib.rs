//! Verified logic of a bxCAN driver for STM32F0 microcontrollers: UAVCAN
//! identifier encoding, the bit update used on filter registers, the register
//! programme of the controller's initialisation, transmit mailbox selection and
//! the interrupt state machine. Register access itself is left to the caller.

pub mod config;
pub mod can;
pub mod payload;
pub mod mailbox;
pub mod irq;
pub mod indicator;
pub mod filter_regs;
