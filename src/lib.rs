//! Text-mode display driver and self-test harness of a freestanding kernel.
//!
//! The display logic works on a 25 x 80 grid of volatile hardware cells; the
//! harness decides, case by case, what the kernel reports and signals.

pub mod harness;
pub mod vga_buffer;
