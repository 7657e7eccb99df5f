# axcryptor

Password-based file encryption (AES-256-GCM or ChaCha20-Poly1305, keys
derived with Argon2), verified with Verus.

- `src/` is the verified library: `encryption` (key derivation, encryption
  and decryption of one file), `container` (the single-file and batch byte
  containers and their readers), `handlers` (what each web request computes
  once its fields are read), `utils` (repeating-key XOR), `models` (request and
  response data) and `outside` (the trusted wrappers around aes-gcm,
  chacha20poly1305, argon2, rand and base64).
- `app/` is the axum web service around it.
- `tests/` runs the library with the real outside crates.
