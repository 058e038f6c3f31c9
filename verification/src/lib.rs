// Verified core logic of the Omnitrix watch firmware.
pub mod assets;
pub mod boot;
pub mod brightness;
pub mod controller;
pub mod framebuffer;
pub mod geometry;
pub mod imu;
pub mod input;
pub mod panel;
pub mod pong;
pub mod qmi8658_imu;
pub mod ring;
pub mod rtc_pcf85063;
pub mod runtime;
pub mod sleep;
pub mod snake;
pub mod terminal;
pub mod time;
pub mod timer;
pub mod ui_frame;
pub mod ui_state;
pub mod watch_page;
