//! Telemetry for a Nucleo-H753ZI board that carries a GNSS receiver and an IMU.

pub mod clock;
pub mod gnss;
pub mod host;
pub mod imu;
pub mod imu_task;
pub mod le;
pub mod message;
pub mod net;
pub mod nmea;
pub mod nng_net;
pub mod sentence;
pub mod shtp;
pub mod stream;
pub mod telemetry;
pub mod text;
pub mod wire;
