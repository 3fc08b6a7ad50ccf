# emskin

The logic of a nested Wayland compositor for Emacs, verified with Verus. The
compositor shows Emacs in a window of the host, embeds the windows of other
programs into it, keeps one workspace per Emacs frame, draws overlays, records
the screen, and bridges the session bus so that input methods find the caret.

`src/` is the verified library. It holds no surfaces, sockets or textures:
surfaces are known by number, times are nanoseconds since the start, and what
has to be done outside comes back as a list of requests.

| Modules | What they decide |
|---------|------------------|
| `dbus`, `rules`, `broker`, `fcitx`, `dbus_broker` | D-Bus messages, the rewriting of caret coordinates, and the proxy in front of the session bus |
| `state`, `workspace`, `shell`, `x11`, `layout`, `tick` | windows, workspaces and focus |
| `input`, `ime`, `selection`, `cursor_x11` | keys, pointer, input method, clipboard, cursor |
| `frame`, `capture`, `recording`, `encoder` | frames, screenshots and recordings |
| `effects` | the overlays: splash screen, skeleton, rulers, caret, pointer trail, workspace buttons, recording indicator |
| `bar`, `emez` | the workspace bar and the small host compositor |
| `launch`, `xwayland_satellite` | children, their environment, and the X display |

`app/` is ordinary Rust around it: the window, the Wayland protocols, the
processes and sockets, and everything that takes floating point. Called as
`emskin-bar` the program is the workspace bar, called as `emez` a host without a
screen, and otherwise the compositor.

`tests/` runs the library from outside.

## What is taken on trust

- `String::push`, `std::str::from_utf8` and `HashMap::get_mut`, as their
  documentation describes them.
- `std::sync::Mutex`, of which nothing is claimed.
- `png::Encoder`: the file is a function of the size and the pixels.
- `cosmic_text::Buffer::draw`: the text that is given is drawn, in the color that
  is asked for, and drawing changes neither the text nor the fonts that are held.
  Which rectangles it is drawn with is left open: that is up to the fonts of the
  machine.
- `cosmic_text::BufferLine::text` and `attrs_list`, and the search of
  `cosmic_text::fallback::FontFallbackIter`: the lines of a text, and whether
  there is a font to fall back to. Text is drawn only where there is, and where
  its lines can be put in order: their paragraphs have one direction, and their
  embeddings are not nested too deep.
