# akurai-mail

The server side of a mail platform, as a verified library with a thin HTTP
server around it. The library decides; the server reads files, runs commands,
sends packets and answers requests.

- `src/` is the library. Every function in it states in its contract what it
  returns, and Verus proves it: sessions and cookies, the login flow of an
  identity provider, what requests ask for and who may ask, the rate limit,
  mailboxes, aliases and domains with the files that describe them, DNS
  questions and answers, the policy on spam and its scores, Maildir names and
  flags, messages and their parts, outgoing mail, webmail settings and rules,
  and the status of the machine. Properties that span several functions are
  proof functions whose names begin with `law_`.
- `src/outside.rs` holds all calls into other crates. Their contracts are
  believed, not proved; each says what it claims.
- `app/` is the server: `main`, the routes, files, processes and sockets, and
  arithmetic on floats.
- `tests/` runs the library on concrete values.

## Configuration

| Variable | Default | Meaning |
|----------|---------|---------|
| `AKURAI_ADMIN_USER` | `admin` | Name of the administrator |
| `AKURAI_ADMIN_PASSWORD` | *(empty)* | Password of the administrator; without one nobody logs in |
| `AKURAI_LISTEN` | `127.0.0.1:3000` | Address to listen on |
| `AKURAI_STATIC_DIR` | `./static` | Directory of the static pages |
| `AKURAI_BASE_URL` | `https://mail.olibuijr.com` | Where the server is reached |
| `AKURAI_OIDC_ISSUER` | `https://auth.olibuijr.com` | Identity provider |
| `AKURAI_OIDC_CLIENT_ID` | *(empty)* | Client at the identity provider |
| `AKURAI_OIDC_CLIENT_SECRET` | *(empty)* | Secret of the client |
| `RUST_LOG` | `akurai_mail_api=info` | Log level |
