//! Standard XBRL concept ids (OpenDART `account_id`) — the keys by which ratios
//! and footing checks pick accounts. Account names vary by company and year;
//! these ids do not.

use vstd::prelude::*;

verus! {

pub const ASSETS: &'static str = "ifrs-full_Assets";

pub const CURRENT_ASSETS: &'static str = "ifrs-full_CurrentAssets";

pub const NONCURRENT_ASSETS: &'static str = "ifrs-full_NoncurrentAssets";

pub const LIABILITIES: &'static str = "ifrs-full_Liabilities";

pub const CURRENT_LIABILITIES: &'static str = "ifrs-full_CurrentLiabilities";

pub const NONCURRENT_LIABILITIES: &'static str = "ifrs-full_NoncurrentLiabilities";

pub const EQUITY: &'static str = "ifrs-full_Equity";

pub const REVENUE: &'static str = "ifrs-full_Revenue";

pub const PROFIT_LOSS: &'static str = "ifrs-full_ProfitLoss";

pub const OPERATING_INCOME: &'static str = "dart_OperatingIncomeLoss";

} // verus!
