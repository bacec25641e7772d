# apex

The decision core of the apex inference server: a KServe v2 gRPC server that serves ONNX models
with dynamic batching, admission control and configuration reload.

- `src/` is the verified library. It decides: which configurations are valid, which requests
  enter, which model a request is for and how it is answered, when a batch is released, how bytes
  are packed and shared out, and which models a reload adds, keeps and removes. Each function
  carries its contract; the laws that relate several functions are the public `lemma_` functions.
- `app/` is the server around it: the gRPC calls, the ONNX Runtime sessions, the dispatcher tasks,
  the metrics, the signals and the files. State that calls share stands there behind locks, and
  the library's functions change it.
- `tests/` runs the library.
