# fuchsia_logic

The decisions that several parts of a Fuchsia system make, as a Verus library. Every function states
what it returns or changes, and Verus proves it.

| Module | What it holds |
| --- | --- |
| `lsm_tree` | Merging the items of several layers, and merging an item into a layer. |
| `wlancfg` | The state machine that keeps a client interface connected. |
| `starnix` | The mappings of an address space and its program break. |
| `vfs` | How a connection to a directory answers requests. |
| `setui` | Configuring and preparing the environment of the settings service. |
| `component_manager` | Serving the realm protocol to a component. |
| `cm_fidl_analyzer` | A model of the component instances that a tree of declarations leads to. |
| `input_pipeline` | Input devices and their events. |

The library neither waits nor talks to anything. Where a decision needs an answer from the kernel, a
driver or another component, a function says what to ask for, and another one takes the answer.
`app/` holds the drivers that do the asking: they name what they need of the system as traits.

Statements that relate several functions, or hold in every state, are the public proof functions
whose names start with `law_`.

The only outside function that the library calls is `memchr::memchr`, in
`starnix::memory_manager`; what is believed of it stands there.
