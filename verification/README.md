# sev_boot

The logic of launching AMD SEV, SEV-ES and SEV-SNP guests, verified with Verus.

The library decides what is asked of the platform and in which order, which guest memory is
measured, shared or private, and how the guest firmware is handed its kernel. It does no input or
output itself: a step of a launch returns what is to be done next, and the caller tells the next step
what came of it.

- `src/arch`, `src/devices`: guests that are launched by commands to the platform, and whose kernel
  stays in an open file.
- `src/vmm`: SNP guests that are launched through a launcher handle, and whose kernel is held in
  memory.
- `src/memory.rs`, `src/layout.rs`: guest memory, the attributes of its pages, and where things stand
  in it.
- `src/ghcb.rs`, `src/cpuid.rs`: the block that a running guest shares with its host, and the page of
  CPUID values that it is launched with.
- `src/elf.rs`, `src/elf_file.rs`, `src/boot_protocol.rs`, `src/bytes.rs`: kernel files.
- `tests`: tests of the library.
- `app`: the host side, which opens files, writes guest memory and reaches the platform.

Calls into other crates are made by the functions marked `external_body`: goblin and scroll read and
write ELF structures, align-address rounds addresses, and sev gives the policy of a guest and the
errors of the firmware.
