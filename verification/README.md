# kairos_chart

The chart logic of the Kairos trading terminal as a Verus-verified library:
what a chart computes from trades, candles and order-book snapshots, and the
editing state behind chart drawings, the canvas interaction state machine and
the menu bar. Every function in `src/` carries a contract that Verus proves,
except four trusted items whose contracts are assumed: the calls to
`uuid::Uuid::new_v4`, `String::push` and `str::trim`, and the declaration of
`uuid::Uuid`. The screen, files and windows stay outside.

Prices are fixed-point integers (hundredths of the quoted price) and
quantities whole contracts, so every rule is exact integer arithmetic.

## Modules

- `market` — prices, tick rounding, trades, candles, order-book snapshots,
  chart basis, viewport bounds and levels of detail.
- `footprint` — per-price bought/sold volume of a run of trades, point of
  control, text-label budget, binary search of trades by time.
- `candlestick` — the footprint cache of a candlestick chart, evicting the
  oldest footprints beyond a budget of price levels.
- `kline` — folding live trades into time or tick candles, rebuilding the
  candles from a run of trades; footprint scales of visible candles.
- `display_data` — viewport-keyed display data (footprint and heatmap) and
  the cache that rebuilds it only when the viewport changes enough.
- `heatmap_data` — order-book runs by price and trades by time bucket, with
  the range queries the heatmap draws from.
- `heatmap_trades` — which heatmap trades are drawn as circles or rectangles.
- `volume_profile` — the heatmap's volume profile: bought and sold volume
  per price tick over a time window, and the window of a fixed profile.
- `drawing` — drawings, their points and styles, the drawing manager with
  undo/redo, selection, dragging and clone placement, and file locations.
- `interaction` — the canvas interaction state machine: drawing placement,
  ruler, panning, Escape and Delete.
- `navigation` — going back through open dialogs and menus, dismissing
  notifications.
- `menu_bar`, `autoscale`, `text` — the menu bar state machine, the
  autoscale toggle and labels, and text formatting.

Laws that span operations (undo/redo and undoing a deletion of the
selection, what the cache holds after any run of requests and
invalidations, the bounded undo history, rebuilding candles from trades, level-of-detail
monotonicity, grouping of trades, candle consistency) are public proof
functions next to the operations they speak of.

`app/` is a small command-line front end: it reads and writes a chart's
drawings as JSON under a data folder and converts screen quantities.
