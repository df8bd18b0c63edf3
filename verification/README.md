# vidsort

Sorts downloaded torrents into media directories: the episodes of shows, movies,
and everything else, each as hard links next to the download.

The torrents' IDs arrive through a FIFO. For each one the files are fetched from
the Transmission daemon, the names of the files are read, the TVDB service confirms
what they say, and the files are linked:

- `<shows>/<title> (<year>) [<imdb>]/Season 01/<title> S01E02.mkv`
- `<movies>/<title> (<year>) [<imdb>]/<title>.mkv`
- `<other>/<path within the torrent>`

## Layout

- `src/` is the library, verified with Verus: parsing of file names
  (`parser`, `pattern`, `path`, `text`), classification (`classifier`), the links
  (`linker`, `pipeline`, `summary`), lookups and their cache (`tvdb`, `cache`), and
  what the tasks of the program do next (`listener`, `fetcher`, `launcher`,
  `transmission`, `retry`). What holds of several functions together is stated in
  public proof functions at the end of each module. Calls into the crates `regex`,
  `camino` and `serde_json` stand behind small functions whose contracts say what is
  taken for granted.
- `app/` is the program: the command line, the network, the file system and the log.
  Under the name `classify` it lists how completed torrents would be classified.
- `tests/` are the tests of the library.
