# ipvlan_container_manager

A web application that writes the configuration of highly available containers: DRBD and
LINSTOR storage, Podman Quadlet units on ipvlan networks, Pacemaker resources and
constraints, and nftables rules for the ingress of a network device.

Everything it writes, and everything it reads back from files and answers, is computed by
the library under `src/`, which is verified with [Verus](https://github.com/verus-lang/verus).
The web server under `app/` reads forms, files and replies, calls the library, and renders
or stores what comes back.

## Layout

- `src/models`, `src/db.rs`: the data
- `src/generators`: resource files, units, scripts and playbooks
- `src/res_file.rs`, `src/scan.rs`, `src/nft_scanner.rs`: reading such files
- `src/json.rs`, `src/inspect.rs`, `src/interfaces.rs`, `src/pcsd.rs`, `src/storage.rs`:
  reading answers in JSON
- `src/routes`: what each page does with its form
- `src/nft_setup.rs`: the steps of a scan of the firewall's rule file
- `src/read_back.rs`, `src/unit_read_back.rs`, `src/policy_read_back.rs`: what is written is
  understood when read
- `src/text.rs`, `src/lines.rs`, `src/chars.rs`, `src/number.rs`, `src/order.rs`,
  `src/occurs.rs`: texts as sequences of characters
- `tests`: the library on concrete values
- `app`: the web server

Public proof functions whose names start with `law_` state what holds of the library as a
whole. What is taken on trust from other crates is marked `external_body` or
`assume_specification`, with a comment that says what is claimed.
