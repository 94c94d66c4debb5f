# transaction_parser

A library that reads, writes, converts and compares transaction records held in
three formats, verified with Verus, and two command-line tools around it.

## Formats

- **CSV**: a header line
  `TX_ID,TX_TYPE,FROM_USER_ID,TO_USER_ID,AMOUNT,TIMESTAMP,STATUS,DESCRIPTION`, then one
  comma-separated line per record.
- **Text**: per record, a `#` line, one `NAME: value` line per field and an empty line.
- **Binary**: per record, a frame: the bytes `YPBN`, a big-endian `u32` body size, then
  the body: identifier (`u64`), type (one byte), sender and receiver (`u64`), amount
  (`i64`), timestamp (`u64`), status (one byte), description length (`u32`) and the
  description's UTF-8 bytes.

## Layout

- `src/`: the verified library.
  - `types.rs`: transactions, their types, statuses and formats, with their models.
  - `errors.rs`: the error types and their messages.
  - `text.rs`: characters, lines, trimming and splitting, UTF-8.
  - `decimal.rs`: reading and writing decimal integers as `str::parse` and `Display` do.
  - `common.rs`: reading the fields of the text formats.
  - `formats/`: the readers and writers of the three formats, with the laws that
    what is written is read back.
  - `comparer.rs`, `converter.rs`, `cli.rs`: the logic of the two tools: format names,
    the comparison of two lists, the command lines and the reports.
  - `lib.rs`: reading and writing by format, conversion, and the conversion law.
- `tests/`: tests of the library.
- `app/`: the tools `convert` and `compare`: arguments, files and printing.

Run the tools as `app convert --input <file> --input-format <format> --output-format
<format>` and `app compare --file1 <file> --input-format1 <format> --file2 <file>
--input-format2 <format>`, with `csv`, `txt` (or `text`) and `bin` (or `binary`) as
formats.
