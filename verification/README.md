# imessage_preview

Verified core of the message preview used by the iMessage exporter's front-ends.

- `src/text.rs` — Unicode whitespace, trimming, joining, decimal formatting, with their laws.
- `src/attachment.rs` — attachments, their media kind and compact descriptors.
- `src/preview.rs` — assembling a message preview from formatted part bodies, badges, runs
  that mix text and attachments, and the body builders.
- `src/cli.rs` — call-log format selection and the export report line.
- `src/webview.rs` — the `file://` URL the preview webview loads.
- `app/` — the native webview (eframe/wry) and command-line glue, unverified.
