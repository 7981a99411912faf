# kernel_core

Analysis of compiled Linux kernel images, verified with Verus:

- `boot_image`: Android boot images (`ANDROID!` header, kernel and ramdisk
  placed by pages);
- `compression`: format detection and decompression (LZ4 legacy and frame,
  Gzip, Zstd) through the `lz4_flex`, `flate2` and `zstd` crates;
- `kallsyms`: discovery of the kallsyms tables in a kernel image (token
  table and index, markers, symbol count and names, absolute or relative
  address tables), token expansion and symbol decoding;
- `elf_builder`: an ELF file with the kernel as text section and the
  recovered symbols, written with the `object` crate;
- `session` and `symbol_order`: the whole pipeline over a file's bytes,
  and filtered, stably sorted, paged queries over the symbol table;
- `probe`: a quick probe for the image's architecture and token table;
- `test_utils`: builders for mock boot images, kernels and LZ4 streams.

`app/` holds the command-line tool and the file-based entry points; it reads
and writes files and prints, and leaves all parsing and decisions to the
library.
