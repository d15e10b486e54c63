pub mod cpu_calculator;
pub mod display;
pub mod extra_info;
pub mod process_info;
pub mod ranking;
pub mod sample_store;
pub mod tracker;
pub mod trend;
pub mod window_info;
