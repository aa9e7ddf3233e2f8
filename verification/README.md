# spooky_maze

The game logic of Spooky Maze, a maze game for ESP32 boards, the desktop and
the browser, written in Verus and proved against its contracts.

- `src/` is the library: maze generation by recursive backtracking, the tile
  map with its coins, walkers, dynamite and NPCs, the game systems (collisions,
  movement, teleport, HUD), the frame-based engine and its movement
  controllers, the drawing plans (camera, visible tiles, sprites, clipped
  blits, BMP textures), the touch controllers' register decoding and D-pad,
  tilt and keyboard input, the DMA framing of SPI display data, and the
  backlight's register sequences.
- `tests/` runs the library on concrete values.
- `app/` is a small program around the library: the bevy_ecs world, the
  display bus, the touch controller and backlight on embedded-hal buses, the
  floating-point tilt controllers, and texture loading.
