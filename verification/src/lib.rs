pub mod autoscale;
pub mod drawing;
pub mod market;
pub mod menu_bar;
pub mod text;
pub mod footprint;
pub mod candlestick;
pub mod display_data;
pub mod heatmap_data;
pub mod kline;
pub mod heatmap_trades;
pub mod interaction;
pub mod navigation;
pub mod volume_profile;
