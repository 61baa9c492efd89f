# cce-remote

Use a phone as a trackpad, keyboard and live window view for the cce desktop.

A small server: it serves a web page over HTTP on the LAN, takes the page's
input events over a WebSocket and passes them to the compositor's control
socket, and streams the focused window back.

`src/` is the library, verified with Verus: what an input frame means, who is
paired, how requests are routed and answered, how frames are shrunk, encoded
and sent, and what each source of frames does next. Numbers are doubles held as
integers, so that reading them, rounding them and writing them with a fixed
number of places, as the compositor's commands have them, is proved too. The one
outside crate that the library calls is `jpeg-encoder`.

`app/` is the program around it: sockets, threads, files, Wayland. It also
writes the four numbers in the head of a screenshot, whose shortest form comes
from the standard library's floating point.

`tests/` runs the library, its numbers and texts against the standard library's.

## Run

    cce-remote          # serves on 0.0.0.0:17017
    cce-remote 8080     # on another port

Open `http://<this machine>:17017` on the phone and give the PIN that was
printed at the start. It is kept in `~/.config/cce/cce-remote.pin`; delete that
file for a new one. Traffic is plain HTTP: on a hostile network, tunnel it.
