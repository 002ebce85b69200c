# roguelike

A small tile-based roguelike: a dungeon of rooms joined by tunnels, orcs and
trolls that chase and fight the player, and potions and scrolls to pick up,
drop and use.

The game's rules live in `src/` and are proved with Verus:

- `map`: tiles, rectangles, digging rooms and tunnels.
- `dungeon`: laying out a new map and furnishing its rooms, from given
  draws (`lay_out_map`, `furnish_room`) and from random ones (`make_map`,
  `place_objects`); a dug map is connected.
- `paths`: walks over open cells, and connectivity.
- `object`: objects, fighters, damage, healing, attacks and deaths.
- `world`: moving, blocking, picking up and dropping, and the shape the
  world is kept in.
- `items`: what each item does when used.
- `ai`: how monsters take their turns.
- `interface`: what a key press means, menus, targeting, and what is drawn.
- `messages`, `fov`, `bound`: the message log, the field of view, and grid
  bounds.

`app/` holds the window, drawing and input around the library.
