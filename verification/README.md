# watch_rs

Firmware for an Omnitrix-style smart watch on the Waveshare ESP32-S3 Touch AMOLED
1.43" board (466x466 CO5300 panel, QMI8658 IMU, PCF85063 RTC, three buttons and a
rotary encoder).

The decision logic of the firmware is a library verified with Verus (`src/`):

- `ui_state`, `controller`, `ui_frame`: pages, menus, navigation history, button
  handling and what each frame must redraw.
- `time`, `brightness`, `watch_page`: the software clock and its editor, the brightness
  level and ring, the watch faces.
- `input`, `runtime`, `sleep`, `boot`, `timer`: debouncing, quadrature decoding, event
  flags, the main loop's decisions, deep sleep, the boot animation and busy-wait delays.
- `imu`, `qmi8658_imu`: sample decoding and the smash gesture detector.
- `rtc_pcf85063`: register formats and calendar conversions of the RTC.
- `assets`: the cache of decompressed images.
- `framebuffer`, `panel`, `ring`, `geometry`: the frame buffer, line drawing, panel
  windows and transfers, ring filling in 2x2 blocks.
- `snake`, `pong`, `terminal`: the games and the text terminal.

`app/` is the firmware around it: board bring-up, the bus drivers, the interrupt
handler, the main loop and everything drawn from floating-point geometry. `tests/`
exercises the library on the host.
