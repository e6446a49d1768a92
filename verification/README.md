# runmat_runtime

A verified library of builtins for the RunMat runtime: the argument
checking, planning and text, index and shape computations behind builtins
such as `append`, `num2cell`, `histc`, `accumarray`, `spdiags`, `str2num`,
`normalize`, `dec2bin`, `strtok`, `verLessThan` and `saveas`, written in
Verus with contracts over mathematical models and proved.

- `src/` is the library. Each builtin has a module whose public functions
  state in `ensures` what they return for every accepted input; laws that
  relate several functions are public proof functions.
- `app/` connects the library to the RunMat value types
  (`runmat-builtins`), the accelerator and the file system, and holds the
  floating-point arithmetic that the library leaves to its callers.
- `tests/` runs the library on concrete inputs.
