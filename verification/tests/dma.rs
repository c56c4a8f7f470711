use psx::dma::{DMA, DMA_CONTROL_OFFSET};
use psx::interrupt_controller::InterruptController;

#[test]
fn dma_control_register_reset_value_and_write() {
    let mut dma = DMA::new();
    assert_eq!(dma.read_register(DMA_CONTROL_OFFSET), 0x07654321);
    dma.write_register(DMA_CONTROL_OFFSET, 0x11223344);
    assert_eq!(dma.read_register(DMA_CONTROL_OFFSET), 0x11223344);
    assert!(!dma.irq());
}

#[test]
fn interrupt_controller_words() {
    let mut ic = InterruptController::new();
    assert_eq!(ic.read_register(4), 0);
    ic.write_register(4, 0x7FF);
    assert_eq!(ic.read_register(4), 0x7FF);
    assert_eq!(ic.read_register(0), 0);
    assert_eq!(ic.registers(), [0, 0x7FF, 0, 0]);
}
