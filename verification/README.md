# ds9

The core of a viewer for FITS images, verified with Verus, and the viewer around it.

`src/` is the library. Every function in it states what it returns or changes, and Verus proves
it. Numbers are held by their bits: `num` computes with them as the IEEE formats do, and the
arithmetic is part of what is proved.

| Modules | What they are about |
|---------|---------------------|
| `text`, `num`, `rounding`, `arith`, `bignum`, `decimal`, `digits`, `digit_laws` | text, and numbers in binary and decimal |
| `fits`, `hdu`, `tiling_laws`, `wcs_laws` | headers, coordinates, pixels and tiles of FITS files |
| `image`, `color`, `filters`, `show`, `draw`, `overlay`, `plot`, `tile`, `mosaic` | pictures of images |
| `marker`, `sky`, `region_laws`, `props` | regions, on the image and on the sky |
| `catalog`, `sorting`, `analysis`, `panels` | catalogs and measurements |
| `frame`, `session`, `edits`, `files`, `prefs`, `laws` | frames and the session that holds them |
| `command`, `run`, `ipc`, `pointer`, `report`, `ui` | menus, the line protocol, the pointer, and what the window shows |
| `net`, `query`, `online`, `export` | messages, queries and files for others |

`app/` has the window, the sockets, the files and what takes sines or logarithms. It hands the
library plain values and the results of those functions.

`tests/` runs the library: the arithmetic against the machine's, the formats against their texts,
and the commands against what they say.
