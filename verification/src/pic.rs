//! 8259 programmable interrupt controllers: remapping IRQ 0-15 to vectors
//! 32-47, unmasking the timer and the keyboard, and acknowledging IRQs.
use vstd::prelude::*;

verus! {

pub const PIC1_COMMAND: u16 = 0x20;
pub const PIC1_DATA: u16 = 0x21;
pub const PIC2_COMMAND: u16 = 0xA0;
pub const PIC2_DATA: u16 = 0xA1;

/// End-of-interrupt command.
pub const PIC_EOI: u8 = 0x20;

/// Vector of IRQ 0 (the first PIC).
pub const PIC1_OFFSET: u8 = 32;

/// Vector of IRQ 8 (the second PIC).
pub const PIC2_OFFSET: u8 = 40;

/// Port writes that reinitialise both PICs: ICW1 (init), ICW2 (vector
/// offsets), ICW3 (cascade on IRQ 2), ICW4 (8086 mode), then the masks:
/// only IRQ 0 (timer) and IRQ 1 (keyboard) enabled.
pub fn init_sequence() -> (r: Vec<(u16, u8)>)
    ensures
        r@ == seq![
            (PIC1_COMMAND, 0x11u8),
            (PIC2_COMMAND, 0x11u8),
            (PIC1_DATA, PIC1_OFFSET),
            (PIC2_DATA, PIC2_OFFSET),
            (PIC1_DATA, 4u8),
            (PIC2_DATA, 2u8),
            (PIC1_DATA, 0x01u8),
            (PIC2_DATA, 0x01u8),
            (PIC1_DATA, 0xFCu8),
            (PIC2_DATA, 0xFFu8),
        ],
{
    vec![
        (PIC1_COMMAND, 0x11u8),
        (PIC2_COMMAND, 0x11u8),
        (PIC1_DATA, PIC1_OFFSET),
        (PIC2_DATA, PIC2_OFFSET),
        (PIC1_DATA, 4u8),
        (PIC2_DATA, 2u8),
        (PIC1_DATA, 0x01u8),
        (PIC2_DATA, 0x01u8),
        (PIC1_DATA, 0xFCu8),
        (PIC2_DATA, 0xFFu8),
    ]
}

/// Command ports that must receive an end-of-interrupt after IRQ `irq`:
/// the second PIC too for IRQ 8 and above, then always the first.
pub fn eoi_ports(irq: u8) -> (r: Vec<u16>)
    ensures
        irq >= 8 ==> r@ == seq![PIC2_COMMAND, PIC1_COMMAND],
        irq < 8 ==> r@ == seq![PIC1_COMMAND],
{
    let mut ports: Vec<u16> = Vec::new();
    if irq >= 8 {
        ports.push(PIC2_COMMAND);
    }
    ports.push(PIC1_COMMAND);
    ports
}

/// Interrupt vector of IRQ `irq` once the PICs are remapped.
pub fn irq_vector(irq: u8) -> (r: u8)
    requires
        irq < 16,
    ensures
        irq < 8 ==> r == PIC1_OFFSET + irq,
        irq >= 8 ==> r == PIC2_OFFSET + (irq - 8),
{
    if irq < 8 {
        PIC1_OFFSET + irq
    } else {
        PIC2_OFFSET + (irq - 8)
    }
}

} // verus!
