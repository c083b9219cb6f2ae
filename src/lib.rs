pub mod event;
pub mod task;
pub mod semaphore;
pub mod scheduler;
pub mod uart;
pub mod packet;
pub mod protocol;
pub mod transport;
