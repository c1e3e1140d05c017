# awb-core

The logic of awb (Android Wireless Bridge): pairing an Android phone for
wireless debugging through a QR code, finding and connecting the phone over
ADB and Bonjour, keeping a watched phone connected, and starting scrcpy to
mirror it. The functions in `src/` are verified with Verus against their
contracts, except three small wrappers whose contracts are trusted: the
random secret (`rand`), the QR code drawing (`qrcode`), and turning
characters into a `String`.

- `src/` — the verified library:
  - `adb.rs`, `adb_client.rs`: reading `adb devices -l` and `adb mdns services`,
    telling apart the aliases of one wireless transport, and what each `adb`
    command's output means.
  - `dnssd.rs`, `pairing.rs`, `wifi.rs`: Bonjour answers, the order in which
    pairing endpoints are tried, and whether this Mac is on Wi-Fi.
  - `qr.rs`: the pairing QR code and its instance name.
  - `pairing_flow.rs`, `pairing_steps.rs`, `connect_steps.rs`: the QR pairing
    flow as steps from what the last command produced to the next command.
  - `cli.rs`, `ui.rs`: the command line's decisions and the terminal menus'
    state.
  - `scrcpy.rs`, `emulator.rs`, `command_path.rs`: finding the tools and the
    arguments they are started with.
  - `desktop.rs`, `menu_bar.rs`: the menu bar app's settings, device rows,
    mirrors and pairing panel.
  - `laws.rs`: properties that span calls, proved over the contracts'
    specifications.
- `tests/`: tests of the library on concrete values.
- `app/`: the `awb` command, which runs the programs, draws on the terminal
  and reads keys, and hands what it sees to the library.
