# voxtype-review

An edit-before-insert popup for Voxtype. Voxtype pipes a transcript in on stdin
and types whatever comes back on stdout; this program opens a window in between,
in which the transcript can be edited and run through configurable actions.

    [output.post_process]
    command = "voxtype-review"
    timeout_ms = 600000

* `src/` is the library: every decision of the program, written in Rust and
  verified with Verus. Each public function carries a contract, and the functions
  named `law_...` state what holds across several of them: that a dictation is
  never lost, that an edit of a file leaves every other byte alone, that what the
  config page accepts is what the popup loads.
* `app/` is the program around it: processes, files, the socket and the window.
* `tests/` runs the library on concrete values.
