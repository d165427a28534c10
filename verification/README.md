# xkey

Surrogate-key (tag) based cache purging for NGINX, in the spirit of Varnish's
`vmod_xkey`.

An upstream response lists its tags in a header, `xkey: product-1234
category-shoes`. Every response on its way into the cache is recorded in a
shared-memory index from each tag to the cache keys carrying it. A `PURGE`
request that names a tag in its `xkey-purge` header has every entry under that
tag invalidated. Where the index does not hold the tag, the cache directory is
scanned instead, and the tags of the files that stay are written back.

## Layout

`src/` is the library. It holds every rule, and it is verified with Verus but
for one call into the standard library: what `usize::from_ne_bytes` returns is
stated in `cache_key` and believed.

| Module | What it holds |
|---|---|
| `cache_key`, `lookup` | Cache keys, file names, and the walk through NGINX's cache tree |
| `text`, `tags`, `header`, `decimal`, `bytes` | Tags, headers and numbers as bytes |
| `model`, `store`, `index`, `index_laws` | The tag index: its contents, its memory, its operations and what they promise together |
| `record`, `history` | Which responses are recorded, under which tags, and what is answered after any history of recordings and purges |
| `scan` | What a scan makes of each file |
| `purge`, `reply` | A purge from the request to the answer |
| `status` | The status endpoint's document |
| `conf` | The directives' arguments and the merging of levels |

`app/` is the NGINX module around it: the directives, the handlers, the slab
pool that the index lives in, and the files. It needs an NGINX source tree to
build. Nothing in it is verified. In particular the index is proved over any
store that does what `TagStore` states: the store on the heap is proved to, and
the one in the slab pool, which the module runs with, is believed to.

`tests/` runs the library on concrete values.
