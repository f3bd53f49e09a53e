# sparkling

The event engine behind a realtime map of Swedish public transport, with its
logic verified in Verus.

- `src/` is the verified library: the stream processor and its steps
  (metadata join, metro stop detection, training and inference features for
  the arrival-time model), delay tracking from realtime trip updates, the
  static metadata table and its column decoding, the archive row format and
  collection decisions, the training-data replay client and the site
  statistics page. Every public function states its result in `ensures`;
  the laws that span calls are public proof functions beside them.
- `app/` is the program around it: HTTP and protobuf feeds, redis, cloud
  storage, timers, the web server, JSON for the frontend, and the
  floating-point distance computation used to find the stop a vehicle is at.
- `tests/` runs the library on concrete trips, stops and events.
