# wove

Terminal user-interface building blocks whose behaviour is stated in Verus
contracts and proved: cell buffers, clipped drawing through a canvas, input
decoding, key maps, a text editor with undo, text layout, pixel images,
list/table/select/scroll elements, single-line inputs and multiline text
areas, Markdown rendered as styled text, and the bytes that bring a
terminal from one frame to the next.

## Layout

- `src/` is the verified library. Each module states its model with spec
  functions and views, and its functions' contracts over them:
  - `buffer`, `canvas`, `geometry`: frames of cells, clipped writes, rectangles;
  - `decoder`, `event`, `terminal`: raw input bytes and backend input into events;
  - `editor`, `text`: the text editor, its undo history, and editing events;
  - `layout`, `elements`, `pixels`: wrapped text and the built-in elements,
    among them `Input`, `Textarea` and `RichText`;
  - `markdown`: CommonMark events turned into styled spans;
  - `pen`, `renderer`, `inline`, `output`, `surface`, `query`: terminal output
    and the replies terminals send back;
  - `keymap`, `testing`, `diff`: key sequences, snapshots, line diffs.
- `tests/` exercises the library from outside.
- `app/` is the thin terminal side: reading input through crossterm, asking
  the terminal questions on stdin, and writing frames to an output.

Calls into `unicode-segmentation`, `unicode-width`, `similar`,
`pulldown-cmark` and `std` that the library makes stand behind small
trusted wrappers, each with a doc comment that says what its contract
claims.

Not here: the element tree and its flexbox layout (it rests on a float
layout engine), the terminal session (raw mode, probing, the title), the
threaded output writer, the screen that drives a tree in tests, lazy
settling of long lists, and animation tweens.
