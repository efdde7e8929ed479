# teetotum_plugins

The logic of the teetotum plugin repository -- the index of faces and the faces kept with it --
as a Verus library with its behaviour stated in contracts and proved.

- `src/text.rs`: decimal and hexadecimal text, and the string tests the rest is built on.
- `src/tags.rs`: which urls are the firmware's own modules, and the rules on an entry's tags.
- `src/origin.rs`: the command line's flags, read into what a module cannot say about itself.
- `src/entry.rs`: an index entry made from a signed module and its origin.
- `src/check.rs`: an entry held to the module behind its url, and the report of it in words.
- `src/faces.rs`: what the counter face and the template face do with an event.
- `src/laws.rs`: properties across those functions, among them that an entry written for a
  module holds when checked against it.
- `src/outside.rs`: the calls into `teetotum-pack`, `sha2` and std, with their trusted contracts.

`app/` is the `teetotum-index` command (files, network, JSON) and the faces' drawing, which runs
on the device only.
