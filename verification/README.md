# lib: verified core of a small RISC-V teaching kernel

The library in `src/` holds the logic of a small Sv39 kernel, each function
with a contract proved by Verus:

- `address`: physical and virtual addresses and page numbers, page rounding,
  the three nine-bit indexes of a virtual page number.
- `page_table`: page table entries and flags, and a three-level page table
  (map, unmap, translate) whose mappings are modelled as a map from virtual
  page numbers to leaf entries.
- `frame_allocator`: the physical frame allocator (a bump range plus a stack
  of freed frames), modelled by `FrameAllocatorModel`.
- `memory_set`: permissions, areas mapped page-for-page, address spaces and
  the kernel's own space built from the image layout.
- `heap_allocator`: the early bump heap.
- `mm`: memory setup at boot.
- `task`: the cooperative scheduler; `trap`: what each trap and system call
  asks of the kernel and the scheduler step that serves it (ending, suspending
  or resuming the task, printing, or a panic); `user`: the registers of the application-side system
  calls; `batch`: the batch loader's order.
- `sbi`, `sys`: the SBI calls (extension, function, arguments) behind the
  console, timer and reset services.
- `utils`: one-time initialisation (`Once`, `Lazy`).

`app/` is the kernel program around it: boot code, the environment call, the
control and status registers, the kernel heap as global allocator, the trap
entry and the context switch. On a host it stands the firmware in with the
process. `tests/` run the library on concrete values.
