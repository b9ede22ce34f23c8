# forward_os

The logic of Forward OS, a small educational x86-64 operating system, as a
library verified with Verus, and the boot loader and kernel around it.

`src/` is the library. Each function states what it computes in its
`requires`/`ensures`, and the `law_*` proof functions state properties that
span several calls (what a write reads back as, what a close undoes, what
an allocation leaves free).

- `bytes`, `checksum`: little-endian fields and the Internet checksum.
- `net`: IPv4, UDP, ICMP echo and ARP frames, and the E1000 descriptor
  rings and register programs.
- `fs`: the MBR and FAT32 boot sector, directory walks, file reads and file
  writes as step machines that ask for one sector at a time.
- `fd`, `ram`, `container`: the open-file table, the page allocator and the
  container registry.
- `syscall`: decoding the `int 0x80` registers and shaping the replies.
- `elf`, `boot_image`: loading programs and the kernel image
  (`boot_image` reads the image through the `xmas-elf` crate).
- `ahci`, `mmio`, `pci`, `apic`, `paging`: register programs for the disk
  controller and the interrupt controllers, PCI configuration words and the
  kernel's identity-mapped page tables.
- `font`, `draw`, `screen`: PSF glyphs and drawing into pixel buffers.
- `interrupts`, `timing`, `shell`, `boot_menu`: the IDT, the keyboard
  ring, TSC timing and sleeps, the debug shell and the boot menu.

`app/` is the rest: the UEFI entry, port and register access, interrupt
entry, and the loops that hand the library's step machines the sectors,
register values and key presses they ask for.

`tests/` runs the library on concrete values: a simulated disk, small fonts,
hand-built frames and register traces.
