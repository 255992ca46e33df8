# canvas-downloader

Downloads files from Canvas courses.

## Usage

1. Create a credential file, say `cred.json`:

   ```json
   {
     "canvasUrl": "https://canvas.example.edu",
     "canvasToken": "an access token"
   }
   ```

2. Run `canvas-downloader -c cred.json` to list the terms.
3. Run it again with the terms to download, say
   `canvas-downloader -c cred.json -t 115 120`. Files go to the folder that `-d`
   names. Files that are on disk already are left alone; with `-n`, those that
   are newer on Canvas are downloaded again.

## Layout

- `src/` holds the decisions, written and proved in Verus: which addresses to
  ask for (`courses`, `process`, `request`, `paging`), what the answers lead to
  (`process`, `links`, `screening`), how that is carried out step by step
  (`runner`, `download`, `work`), most of what the user reads (`messages`), and
  what holds of all of it (`containment`, `forking`, and the functions named
  `law_...` beside what they speak of). `outside` holds the calls into other
  crates, each with what is relied on.
- `app/` makes the requests, touches the disk and prints.
- `tests/` runs the library on examples.
