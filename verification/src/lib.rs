//! Host/guest agent protocol for an application sandboxed in a QEMU virtual
//! machine: message vocabulary, newline-delimited JSON framing, handshake and
//! request/acknowledge discipline, asynchronous event delivery, connection
//! retry policy, and the VM launch configuration builder.
pub mod agent;
pub mod clipboard;
pub mod codec;
pub mod connect;
pub mod dbus_notifications;
pub mod runner;
