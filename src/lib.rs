//! Control of a battery-powered LED panel over a USB-serial link: the wire
//! codec, the frame decoder that resynchronizes on a byte stream, and the
//! connection state of a serial session.
pub mod commands;
pub mod framing;
pub mod protocol;
pub mod session;
