# WBOR studio dashboard

A dashboard for the WBOR radio studio: it shows the song on air with its playlist, DJ and show
(from Spinitron), the latest text messages sent to the studio (from Twilio), the weather, a
clock, errors as they come up, and the occasional surprise.

## Layout

- `src/` is the library, verified with Verus: the update scheduling, error reporting, text
  cleanup and layout, the API history lists and their texture slots, the Spinitron and Twilio
  models and their formatting, timestamps, weather predictions, surprises, and the geometry of
  scrolling text.
- `tests/` runs the library on concrete values.
- `app/` is the program around the library: the window, fonts and textures (SDL2), the
  network requests, the tasks that keep the data current, the local sockets that trigger
  updates and surprises, and the dashboard's layout.

The program reads `assets/app_config.json` and `assets/api_keys.json`, and the images and
fonts under `assets/`.
