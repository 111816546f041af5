# cek — Chicken Encryption Kit

A toy asymmetric cipher over many small RSA moduli (each the product of two
distinct primes, between 257 and 1023), with its own hash, and two text formats for keys and
ciphertexts: *chicken* (each value `v` is a line of `v + 1` words `chicken`)
and *minichicken* (each value `v` is the number `v + 1`).

The library under `src/` is written in Verus and verified:

| module | what it holds |
|---|---|
| `number_theory` | gcd, Rust's truncating division, the extended Euclidean recursion, binomials, Fermat's little theorem, the RSA round trip |
| `arith` | `gcd`, `extended_gcd`, `mod_inverse`, `mod_pow`, `is_prime`, `valid_prime_pairs` |
| `text` | splitting on whitespace and lines, trimming, decimal numerals |
| `format`, `format_laws` | the two file formats, their reader and writer, and that reading gives back what was written |
| `hash` | the chicken hash |
| `keys` | key types, key files, password protection |
| `cipher` | ciphertext files, encryption, decryption, signing, verification |
| `keygen` | key generation from random prime pairs |
| `laws`, `file_laws` | decryption undoes encryption, a fresh signature verifies, key and ciphertext files read back |
| `select` | labels, menu text and menu moves for choosing a key |
| `error` | the error type and its messages |
| `outside` | the calls into std and `rand` whose contracts are taken on trust |

`app/` holds the command-line tools (`keygen`, `crypt`, `sign`, `convert`):
argument parsing, files, the terminal and password prompts.
