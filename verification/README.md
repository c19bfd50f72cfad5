# sky_monitor

Core of a local sky-monitoring appliance: it observes aircraft above a fixed
observer, stitches their samples into tracks, keeps the sky as a property
graph (observer, aircraft, tracks, evidence observations, weather cells,
hourly time windows, anomalies) and writes a daily brief. The synthetic
scenario and weather timeline are fully deterministic from one seed.

## Layout

* `src/` — the library, verified with Verus:
  * `adsb` — the seeded generator, the flight table of the synthetic day and
    the integer skeleton of its samples (instant, order, jitter draws);
  * `clock`, `text` — UTC instants and hourly windows; decimal rendering and
    the order strings sort by;
  * `observation`, `weather` — vocabularies and the hourly weather timeline;
  * `track` — gap-based track stitching;
  * `graphstore` — the `ruvector-graph` store, seen through what the library
    writes and reads back;
  * `skygraph` — the SkyGraph: insertion of weather, tracks, similarity links
    and anomalies, the time-window and overhead queries, `explain`;
  * `brief` — the daily sky brief.
* `tests/` — tests of the library on concrete values.
* `app/` — the platform around it: floating-point geodesy and track
  statistics, serde types, the dump1090 parser, the `ruvector-core`
  similarity index, the SGP4 satellite layer and the browser bindings.
