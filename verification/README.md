# Bridgehead

The controls, the HUD and the unit movement of a real-time strategy game, as a
library whose behaviour is stated in contracts and proved by Verus, and a thin
Bevy client around it.

## Layout

- `src/` is the library. All lengths are thousandths of a world unit or of a
  pixel, all times thousandths of a second; entities are their 64 bits.
  - The command card: `catalog`, `hotkeys`, `card`, `situation`, `command`,
    `doctrine`, `keymap`.
  - The mouse: `pick`, `gestures`, `walls`, `controls`, `layout`, `minimap`,
    `knowable`.
  - What is said and remembered: `intent`, `ui_state`.
  - What is shown: `hud`, `panel`, `palette`, `readouts`, `alerts`, `cues`,
    `proposals`, `fog`, `markers`, `shots`, `spawn`.
  - Walking: `map`, `nav`, `heap`, `route`, `motion`.
  - Ground floor: `text`, `lists`, `entity`.
- `tests/` runs the library on concrete values.
- `app/` reads Bevy's world into the library's plain values and draws or carries
  out what comes back.

## Where to start reading

`command::command_step` says what a frame of the keyboard does, `gestures` what
the two mouse buttons do, `hud::update_hud` what the screen says, `nav::astar`
and `route::plan_path` how a unit finds its way. The public proof functions
state what holds of all of them together: `keymap::one_key_one_button`,
`knowable::right_clicks_find_nothing_out`, `ui_state::escape_takes_one_step`,
`route::routes_end_where_asked`, `walls::workers_take_turns`,
`layout::the_floating_panels_never_overlap` and their neighbours.
